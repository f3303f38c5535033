//! The road network: junctions, directed road segments, the graph over them
//! and a shared memo of shortest paths between segments.
use crate::graph::{
    add_arc, add_vertex, arc_weight_total, empty_graph, graph_arcs, graph_vertex_count, has_walk_of_weight,
    is_least_weight, least_weight,
};
use moka::sync::Cache;
use petgraph::graph::Graph;
use std::sync::atomic::{AtomicU64, Ordering};
use vstd::prelude::*;

verus! {

/// A junction.
pub struct Node {
    pub id: String,
    pub name: String,
}

/// A directed road segment from `start_node_id` to `end_node_id`; its
/// `length` is in millimetres and weighs the segment in the graph.
pub struct Edge {
    pub id: String,
    pub name: String,
    pub length: u64,
    pub start_node_id: String,
    pub end_node_id: String,
}

/// Result of a shortest-path query between two segments: the least length
/// from the end of the first to the start of the second (`None` when the
/// second cannot be reached), and the first segment's own length.
#[derive(Clone, Copy)]
pub struct PathCost {
    pub path_distance: Option<u64>,
    pub from_edge_length: u64,
}

/// Lookup counters of the shortest-path memo.
pub struct CacheStats {
    pub hits: AtomicU64,
    pub misses: AtomicU64,
}

impl CacheStats {
    pub fn new() -> (r: CacheStats) {
        CacheStats { hits: AtomicU64::new(0), misses: AtomicU64::new(0) }
    }

    /// Sets both counters back to zero.
    pub fn reset(&self) {
        self.hits.store(0, Ordering::Relaxed);
        self.misses.store(0, Ordering::Relaxed);
    }

    /// The current (hits, misses).
    pub fn counts(&self) -> (r: (u64, u64)) {
        (self.hits.load(Ordering::Relaxed), self.misses.load(Ordering::Relaxed))
    }
}

#[verifier::external_type_specification]
#[verifier::external_body]
#[verifier::reject_recursive_types(K)]
#[verifier::reject_recursive_types(V)]
#[verifier::reject_recursive_types(S)]
pub struct ExCache<K, V, S>(moka::sync::Cache<K, V, S>);

/// The shortest-path memo: a concurrent cache keyed by (from segment, to
/// segment), and the segments and their resolved endpoints that it serves.
/// Its fields are private: only this module builds a memo, always empty, and
/// only `remember_path` stores into it, each time a fresh result.
pub struct PathMemo {
    cache: Cache<(usize, usize), PathCost>,
    model: Ghost<(Seq<Edge>, Seq<Option<(usize, usize)>>)>,
}

impl PathMemo {
    /// The segments and resolved endpoints whose shortest paths the memo holds.
    pub closed spec fn serves(&self) -> (Seq<Edge>, Seq<Option<(usize, usize)>>) {
        self.model@
    }
}

/// Relies on moka's `Cache::new`: an empty concurrent cache bounded to
/// `capacity` entries.
#[verifier::external_body]
fn new_path_cache(capacity: u64) -> (c: Cache<(usize, usize), PathCost>) {
    Cache::new(capacity)
}

/// Relies on moka's `Cache::get`: a hit is a value that was inserted under
/// the same key (entries may have left since, by eviction or invalidation).
/// Every insertion goes through `remember_path`, which takes only the fresh
/// result for the pair, so a hit is that fresh result.
#[verifier::external_body]
fn cached_path(c: &PathMemo, from: usize, to: usize) -> (r: Option<PathCost>)
    ensures
        r matches Some(v) ==> fresh_path_cost(c.serves().0, c.serves().1, from as int, to as int, v),
{
    c.cache.get(&(from, to))
}

/// Relies on moka's `Cache::insert`. Only the fresh result for a pair of
/// segments may be stored under that pair.
#[verifier::external_body]
fn remember_path(c: &PathMemo, from: usize, to: usize, v: PathCost)
    requires
        fresh_path_cost(c.serves().0, c.serves().1, from as int, to as int, v),
{
    c.cache.insert((from, to), v)
}

/// Relies on moka's `Cache::invalidate_all`.
#[verifier::external_body]
fn forget_paths(c: &PathMemo) {
    c.cache.invalidate_all()
}

/// Relies on moka's `Cache::entry_count`, an estimate.
#[verifier::external_body]
fn cached_count(c: &PathMemo) -> (r: u64) {
    c.cache.entry_count()
}

/// Relies on moka's `Cache::weighted_size`, an estimate.
#[verifier::external_body]
fn cached_weight(c: &PathMemo) -> (r: u64) {
    c.cache.weighted_size()
}

/// `i` is the last node whose id is `id`.
pub open spec fn is_last_with_id(nodes: Seq<Node>, id: Seq<char>, i: int) -> bool {
    &&& 0 <= i < nodes.len()
    &&& nodes[i].id@ == id
    &&& forall|k: int| i < k < nodes.len() ==> (#[trigger] nodes[k]).id@ != id
}

/// Index of the node with id `id`; with several, the last one.
pub open spec fn node_index_of(nodes: Seq<Node>, id: Seq<char>) -> Option<int> {
    if exists|i: int| is_last_with_id(nodes, id, i) {
        Some(choose|i: int| is_last_with_id(nodes, id, i))
    } else {
        None
    }
}

/// Vertices of a segment's endpoints, when both junctions exist.
pub open spec fn edge_ends(nodes: Seq<Node>, e: Edge) -> Option<(int, int)> {
    match (node_index_of(nodes, e.start_node_id@), node_index_of(nodes, e.end_node_id@)) {
        (Some(a), Some(b)) => Some((a, b)),
        _ => None,
    }
}

pub open spec fn pair_int(p: Option<(usize, usize)>) -> Option<(int, int)> {
    match p {
        Some((a, b)) => Some((a as int, b as int)),
        None => None,
    }
}

/// Both vertices, when there are any, are below `n`.
pub open spec fn ends_within(p: Option<(usize, usize)>, n: nat) -> bool {
    match p {
        Some((a, b)) => a < n && b < n,
        None => true,
    }
}

/// Arcs of the segments whose endpoints resolved, in order.
pub open spec fn arcs_of(edges: Seq<Edge>, ends: Seq<Option<(usize, usize)>>) -> Seq<(nat, nat, nat)>
    decreases ends.len(),
{
    if ends.len() == 0 {
        Seq::empty()
    } else {
        let rest = arcs_of(edges, ends.drop_last());
        match ends.last() {
            Some((a, b)) => rest.push((a as nat, b as nat, edges[ends.len() - 1].length as nat)),
            None => rest,
        }
    }
}

/// `r` is what a fresh shortest-path computation from segment `from` to
/// segment `to` yields: the first segment's length when it joins two known
/// junctions (else 0), and the least length of a path from its end to the
/// start of the second, `None` when there is none or either segment was dropped.
pub open spec fn fresh_path_cost(
    edges: Seq<Edge>,
    ends: Seq<Option<(usize, usize)>>,
    from: int,
    to: int,
    r: PathCost,
) -> bool {
    match ends[from] {
        None => r.path_distance is None && r.from_edge_length == 0,
        Some((_, a)) => {
            &&& r.from_edge_length == edges[from].length
            &&& match ends[to] {
                None => r.path_distance is None,
                Some((b, _)) => match r.path_distance {
                    Some(c) => is_least_weight(arcs_of(edges, ends), a as nat, b as nat, c as nat),
                    None => forall|c: nat| !has_walk_of_weight(arcs_of(edges, ends), a as nat, b as nat, c),
                },
            }
        },
    }
}

/// A fresh shortest-path result is unique.
pub proof fn lemma_fresh_path_cost_unique(
    edges: Seq<Edge>,
    ends: Seq<Option<(usize, usize)>>,
    from: int,
    to: int,
    r1: PathCost,
    r2: PathCost,
)
    requires
        fresh_path_cost(edges, ends, from, to, r1),
        fresh_path_cost(edges, ends, from, to, r2),
    ensures
        r1 == r2,
{
    if let (Some((_, a)), Some((b, _))) = (ends[from], ends[to]) {
        let arcs = arcs_of(edges, ends);
        match (r1.path_distance, r2.path_distance) {
            (Some(c1), Some(c2)) => {
                assert(has_walk_of_weight(arcs, a as nat, b as nat, c1 as nat));
                assert(has_walk_of_weight(arcs, a as nat, b as nat, c2 as nat));
            },
            (Some(c1), None) => {
                assert(has_walk_of_weight(arcs, a as nat, b as nat, c1 as nat));
            },
            (None, Some(c2)) => {
                assert(has_walk_of_weight(arcs, a as nat, b as nat, c2 as nat));
            },
            _ => {},
        }
    }
}

/// Sum of the lengths of the first `k` segments.
pub open spec fn length_total(edges: Seq<Edge>, k: nat) -> nat
    decreases k,
{
    if k == 0 {
        0
    } else {
        length_total(edges, (k - 1) as nat) + edges[k - 1].length as nat
    }
}

fn find_node(nodes: &Vec<Node>, id: &String) -> (r: Option<usize>)
    ensures
        match r {
            Some(i) => node_index_of(nodes@, id@) == Some(i as int),
            None => node_index_of(nodes@, id@) is None,
        },
{
    let mut i: usize = nodes.len();
    while i > 0
        invariant
            i <= nodes@.len(),
            forall|k: int| i <= k < nodes@.len() ==> (#[trigger] nodes@[k]).id@ != id@,
        decreases i,
    {
        i -= 1;
        if nodes[i].id == *id {
            assert(is_last_with_id(nodes@, id@, i as int));
            let ghost j = choose|j: int| is_last_with_id(nodes@, id@, j);
            assert(j == i) by {
                if j < i {
                    assert(nodes@[i as int].id@ != id@);
                }
            }
            return Some(i);
        }
    }
    assert forall|j: int| !is_last_with_id(nodes@, id@, j) by {
        if 0 <= j < nodes@.len() {
            assert(nodes@[j].id@ != id@);
        }
    }
    None
}

/// The network: `ends[k]` holds the vertices of segment `k` when it joins two
/// known junctions; only such segments are arcs of `graph`.
pub struct RoadNetwork {
    pub nodes: Vec<Node>,
    pub edges: Vec<Edge>,
    pub ends: Vec<Option<(usize, usize)>>,
    pub graph: Graph<(), u64>,
    pub path_cache: PathMemo,
    pub cache_stats: CacheStats,
}

/// Capacity of the shortest-path memo when none is given.
pub const DEFAULT_CACHE_SIZE: u64 = 10000;

impl RoadNetwork {
    /// The graph's arcs as the segments determine them.
    pub open spec fn arcs(&self) -> Seq<(nat, nat, nat)> {
        arcs_of(self.edges@, self.ends@)
    }

    pub open spec fn wf(&self) -> bool {
        &&& self.ends@.len() == self.edges@.len()
        &&& graph_vertex_count(self.graph) == self.nodes@.len()
        &&& graph_arcs(self.graph) == self.arcs()
        &&& arc_weight_total(self.arcs()) <= u64::MAX
        &&& forall|k: int|
            0 <= k < self.edges@.len() ==> pair_int(#[trigger] self.ends@[k]) == edge_ends(
                self.nodes@,
                self.edges@[k],
            )
        &&& forall|k: int| 0 <= k < self.edges@.len() ==> ends_within(#[trigger] self.ends@[k], self.nodes@.len())
        &&& self.path_cache.serves() == (self.edges@, self.ends@)
    }

    /// Segment `k` exists and joins two known junctions, so the graph kept it.
    pub open spec fn kept_segment(&self, k: int) -> bool {
        0 <= k < self.edges@.len() && self.ends@[k] is Some
    }

    /// `r` is what a fresh shortest-path computation from segment `from` to
    /// segment `to` yields.
    pub open spec fn is_fresh_path_cost(&self, from: int, to: int, r: PathCost) -> bool {
        fresh_path_cost(self.edges@, self.ends@, from, to, r)
    }

    /// Builds the network: every node becomes a vertex, every segment whose
    /// two junctions exist becomes an arc weighted by its length.
    pub fn from_nodes_and_edges_with_cache(nodes: Vec<Node>, edges: Vec<Edge>, cache_size: u64) -> (r: RoadNetwork)
        requires
            nodes@.len() < 0xffff_ffff,
            edges@.len() < 0xffff_ffff,
            length_total(edges@, edges@.len()) <= u64::MAX,
        ensures
            r.wf(),
            r.nodes@ == nodes@,
            r.edges@ == edges@,
    {
        let mut graph = empty_graph();
        let mut i: usize = 0;
        while i < nodes.len()
            invariant
                i <= nodes@.len(),
                nodes@.len() < 0xffff_ffff,
                graph_vertex_count(graph) == i,
                graph_arcs(graph) == Seq::<(nat, nat, nat)>::empty(),
            decreases nodes@.len() - i,
        {
            add_vertex(&mut graph);
            i += 1;
        }
        let mut ends: Vec<Option<(usize, usize)>> = Vec::new();
        let mut k: usize = 0;
        assert(arcs_of(edges@, ends@) == Seq::<(nat, nat, nat)>::empty());
        while k < edges.len()
            invariant
                k <= edges@.len(),
                edges@.len() < 0xffff_ffff,
                ends@.len() == k,
                graph_vertex_count(graph) == nodes@.len(),
                graph_arcs(graph) == arcs_of(edges@, ends@),
                graph_arcs(graph).len() <= k,
                arc_weight_total(graph_arcs(graph)) <= length_total(edges@, k as nat),
                length_total(edges@, edges@.len()) <= u64::MAX,
                forall|j: int| 0 <= j < k ==> pair_int(#[trigger] ends@[j]) == edge_ends(nodes@, edges@[j]),
                forall|j: int| 0 <= j < k ==> ends_within(#[trigger] ends@[j], nodes@.len()),
            decreases edges@.len() - k,
        {
            let a = find_node(&nodes, &edges[k].start_node_id);
            let b = find_node(&nodes, &edges[k].end_node_id);
            let ghost old_ends = ends@;
            let ghost old_arcs = graph_arcs(graph);
            match (a, b) {
                (Some(a), Some(b)) => {
                    add_arc(&mut graph, a, b, edges[k].length);
                    ends.push(Some((a, b)));
                    assert(ends@.drop_last() =~= old_ends);
                    assert(graph_arcs(graph).drop_last() =~= old_arcs);
                },
                _ => {
                    ends.push(None);
                    assert(ends@.drop_last() =~= old_ends);
                },
            }
            k += 1;
        }
        let ghost served = (edges@, ends@);
        let path_cache = PathMemo { cache: new_path_cache(cache_size), model: Ghost(served) };
        RoadNetwork { nodes, edges, ends, graph, path_cache, cache_stats: CacheStats::new() }
    }

    /// An empty network with a memo of the default capacity.
    pub fn new() -> (r: RoadNetwork)
        ensures
            r.wf(),
            r.nodes@.len() == 0,
            r.edges@.len() == 0,
    {
        Self::with_cache_size(DEFAULT_CACHE_SIZE)
    }

    /// An empty network with a memo of `cache_size` entries.
    pub fn with_cache_size(cache_size: u64) -> (r: RoadNetwork)
        ensures
            r.wf(),
            r.nodes@.len() == 0,
            r.edges@.len() == 0,
    {
        Self::from_nodes_and_edges_with_cache(Vec::new(), Vec::new(), cache_size)
    }

    /// Builds the network with a memo of the default capacity.
    pub fn from_nodes_and_edges(nodes: Vec<Node>, edges: Vec<Edge>) -> (r: RoadNetwork)
        requires
            nodes@.len() < 0xffff_ffff,
            edges@.len() < 0xffff_ffff,
            length_total(edges@, edges@.len()) <= u64::MAX,
        ensures
            r.wf(),
            r.nodes@ == nodes@,
            r.edges@ == edges@,
    {
        Self::from_nodes_and_edges_with_cache(nodes, edges, DEFAULT_CACHE_SIZE)
    }
}

impl RoadNetwork {
    /// Shortest path from the end of segment `from` to the start of segment
    /// `to`, computed afresh.
    pub fn compute_shortest_path_internal(&self, from: usize, to: usize) -> (r: PathCost)
        requires
            self.wf(),
            from < self.edges@.len(),
            to < self.edges@.len(),
        ensures
            self.is_fresh_path_cost(from as int, to as int, r),
    {
        match (self.ends[from], self.ends[to]) {
            (Some((_, a)), Some((b, _))) => {
                assert(ends_within(self.ends@[from as int], self.nodes@.len()));
                assert(ends_within(self.ends@[to as int], self.nodes@.len()));
                PathCost { path_distance: least_weight(&self.graph, a, b), from_edge_length: self.edges[from].length }
            },
            (Some(_), None) => PathCost { path_distance: None, from_edge_length: self.edges[from].length },
            _ => PathCost { path_distance: None, from_edge_length: 0 },
        }
    }

    /// Shortest path from the end of segment `from` to the start of segment
    /// `to`, through the memo: a segment to itself is `(Some(0), 0)` without
    /// a lookup; otherwise a hit returns the remembered result, and a miss
    /// computes it afresh and remembers it. Either way the result is the
    /// fresh one. Counters record hits and misses.
    pub fn compute_edge_shortest_path(&self, from: usize, to: usize) -> (r: PathCost)
        requires
            self.wf(),
            from < self.edges@.len(),
            to < self.edges@.len(),
        ensures
            from == to ==> r == (PathCost { path_distance: Some(0), from_edge_length: 0 }),
            from != to ==> self.is_fresh_path_cost(from as int, to as int, r),
    {
        if from == to {
            return PathCost { path_distance: Some(0), from_edge_length: 0 };
        }
        if let Some(cached) = cached_path(&self.path_cache, from, to) {
            self.cache_stats.hits.fetch_add(1, Ordering::Relaxed);
            return cached;
        }
        self.cache_stats.misses.fetch_add(1, Ordering::Relaxed);
        let fresh = self.compute_shortest_path_internal(from, to);
        remember_path(&self.path_cache, from, to, fresh);
        fresh
    }

    /// `k` is the last segment with id `id` among those that joins two known junctions.
    pub open spec fn is_last_edge_with_id(&self, id: Seq<char>, k: int) -> bool {
        &&& 0 <= k < self.edges@.len()
        &&& self.edges@[k].id@ == id
        &&& self.ends@[k] is Some
        &&& forall|j: int|
            k < j < self.edges@.len() && (#[trigger] self.ends@[j]) is Some ==> self.edges@[j].id@ != id
    }

    pub open spec fn edge_index_of(&self, id: Seq<char>) -> Option<int> {
        if exists|k: int| self.is_last_edge_with_id(id, k) {
            Some(choose|k: int| self.is_last_edge_with_id(id, k))
        } else {
            None
        }
    }

    /// Index of the segment with id `id` among those that join two known
    /// junctions; with several, the last.
    pub fn find_edge(&self, id: &str) -> (r: Option<usize>)
        requires
            self.wf(),
        ensures
            match r {
                Some(k) => self.edge_index_of(id@) == Some(k as int),
                None => self.edge_index_of(id@) is None,
            },
    {
        let key = id.to_owned();
        let mut i: usize = self.edges.len();
        while i > 0
            invariant
                i <= self.edges@.len(),
                key@ == id@,
                self.ends@.len() == self.edges@.len(),
                forall|j: int|
                    i <= j < self.edges@.len() && (#[trigger] self.ends@[j]) is Some ==> self.edges@[j].id@ != id@,
            decreases i,
        {
            i -= 1;
            if self.ends[i].is_some() && self.edges[i].id == key {
                assert(self.is_last_edge_with_id(id@, i as int));
                let ghost j = choose|j: int| self.is_last_edge_with_id(id@, j);
                assert(j == i) by {
                    if j < i {
                        assert(self.edges@[i as int].id@ != id@);
                    }
                }
                return Some(i);
            }
        }
        assert forall|j: int| !self.is_last_edge_with_id(id@, j) by {
            if 0 <= j < self.edges@.len() && self.ends@[j] is Some {
                assert(self.edges@[j].id@ != id@);
            }
        }
        None
    }

    /// The segment with id `id` that joins two known junctions; with several, the last.
    pub fn get_edge(&self, id: &str) -> (r: Option<&Edge>)
        requires
            self.wf(),
        ensures
            match self.edge_index_of(id@) {
                Some(k) => r == Some(&self.edges@[k]),
                None => r is None,
            },
    {
        match self.find_edge(id) {
            Some(k) => Some(&self.edges[k]),
            None => None,
        }
    }

    /// Number of entries the memo holds, as moka estimates it.
    pub fn cache_size(&self) -> u64 {
        cached_count(&self.path_cache)
    }

    /// Total weight of the memo's entries, as moka estimates it.
    pub fn cache_capacity(&self) -> u64 {
        cached_weight(&self.path_cache)
    }

    /// Empties the memo and resets its counters.
    pub fn clear_cache(&self) {
        forget_paths(&self.path_cache);
        self.cache_stats.reset();
    }
}

} // verus!
