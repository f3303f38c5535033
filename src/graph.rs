//! The directed road graph: vertices are junctions, arcs carry road lengths.
use petgraph::algo::dijkstra;
use petgraph::graph::{Graph, NodeIndex};
use vstd::prelude::*;

verus! {

#[verifier::external_type_specification]
#[verifier::external_body]
#[verifier::reject_recursive_types(N)]
#[verifier::reject_recursive_types(E)]
#[verifier::reject_recursive_types(Ty)]
#[verifier::reject_recursive_types(Ix)]
pub struct ExGraph<N, E, Ty, Ix>(petgraph::graph::Graph<N, E, Ty, Ix>);

#[verifier::external_type_specification]
#[verifier::external_body]
pub struct ExDirected(petgraph::Directed);

/// The arcs of a graph in insertion order, each as (source, target, weight).
pub uninterp spec fn graph_arcs(g: Graph<(), u64>) -> Seq<(nat, nat, nat)>;

/// The number of vertices of a graph.
pub uninterp spec fn graph_vertex_count(g: Graph<(), u64>) -> nat;

/// `w` lists arc indices that chain from `from` to `to`; the empty walk stays put.
pub open spec fn is_walk(arcs: Seq<(nat, nat, nat)>, from: nat, to: nat, w: Seq<int>) -> bool {
    &&& forall|k: int| 0 <= k < w.len() ==> 0 <= #[trigger] w[k] < arcs.len()
    &&& w.len() == 0 ==> from == to
    &&& w.len() > 0 ==> arcs[w[0]].0 == from && arcs[w[w.len() - 1]].1 == to
    &&& forall|k: int| 0 <= k < w.len() - 1 ==> arcs[#[trigger] w[k]].1 == arcs[w[k + 1]].0
}

/// Total weight of the arcs a walk uses, counted with repetition.
pub open spec fn walk_weight(arcs: Seq<(nat, nat, nat)>, w: Seq<int>) -> nat
    decreases w.len(),
{
    if w.len() == 0 {
        0
    } else {
        walk_weight(arcs, w.drop_last()) + arcs[w.last()].2
    }
}

pub open spec fn has_walk_of_weight(arcs: Seq<(nat, nat, nat)>, from: nat, to: nat, c: nat) -> bool {
    exists|w: Seq<int>| is_walk(arcs, from, to, w) && walk_weight(arcs, w) == c
}

/// `c` is the least weight of a walk from `from` to `to`.
pub open spec fn is_least_weight(arcs: Seq<(nat, nat, nat)>, from: nat, to: nat, c: nat) -> bool {
    &&& has_walk_of_weight(arcs, from, to, c)
    &&& forall|d: nat| #[trigger] has_walk_of_weight(arcs, from, to, d) ==> c <= d
}

/// Sum of all arc weights.
pub open spec fn arc_weight_total(arcs: Seq<(nat, nat, nat)>) -> nat
    decreases arcs.len(),
{
    if arcs.len() == 0 {
        0
    } else {
        arc_weight_total(arcs.drop_last()) + arcs.last().2
    }
}

/// Relies on petgraph's `Graph::new`: a graph without vertices or arcs.
#[verifier::external_body]
pub(crate) fn empty_graph() -> (g: Graph<(), u64>)
    ensures
        graph_arcs(g) == Seq::<(nat, nat, nat)>::empty(),
        graph_vertex_count(g) == 0,
{
    Graph::new()
}

/// Relies on petgraph's `Graph::add_node`: the new vertex takes the next index,
/// and the call panics only when that index would be the reserved `u32::MAX`.
#[verifier::external_body]
pub(crate) fn add_vertex(g: &mut Graph<(), u64>) -> (r: usize)
    requires
        graph_vertex_count(*old(g)) < 0xffff_ffff,
    ensures
        r == graph_vertex_count(*old(g)),
        graph_vertex_count(*final(g)) == graph_vertex_count(*old(g)) + 1,
        graph_arcs(*final(g)) == graph_arcs(*old(g)),
{
    g.add_node(()).index()
}

/// Relies on petgraph's `Graph::add_edge`: the arc is appended, and the call
/// panics only on an endpoint out of range or on the reserved arc index.
#[verifier::external_body]
pub(crate) fn add_arc(g: &mut Graph<(), u64>, a: usize, b: usize, weight: u64)
    requires
        a < graph_vertex_count(*old(g)),
        b < graph_vertex_count(*old(g)),
        graph_arcs(*old(g)).len() < 0xffff_ffff,
    ensures
        graph_vertex_count(*final(g)) == graph_vertex_count(*old(g)),
        graph_arcs(*final(g)) == graph_arcs(*old(g)).push((a as nat, b as nat, weight as nat)),
{
    g.add_edge(NodeIndex::new(a), NodeIndex::new(b), weight);
}

/// Relies on petgraph's `dijkstra` with each arc's weight as its cost: the
/// score it records for `goal` is the least weight of a walk from `start`, and
/// none is recorded when no walk reaches `goal`. Costs are sums of weights of
/// simple paths, which the total bounds, so no addition overflows.
#[verifier::external_body]
pub(crate) fn least_weight(g: &Graph<(), u64>, start: usize, goal: usize) -> (r: Option<u64>)
    requires
        start < graph_vertex_count(*g),
        goal < graph_vertex_count(*g),
        arc_weight_total(graph_arcs(*g)) <= u64::MAX,
    ensures
        r matches Some(c) ==> is_least_weight(graph_arcs(*g), start as nat, goal as nat, c as nat),
        r is None ==> forall|c: nat| !has_walk_of_weight(graph_arcs(*g), start as nat, goal as nat, c),
{
    let target = NodeIndex::new(goal);
    dijkstra(g, NodeIndex::new(start), Some(target), |e| *e.weight()).get(&target).copied()
}

} // verus!
