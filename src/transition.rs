//! Transition scores between the candidates of consecutive observations.
use crate::candidate::{CandidatePoint, ProjectionPoint};
use crate::network::{lemma_fresh_path_cost_unique, PathCost, RoadNetwork};
use crate::viterbi::{opt_int, term_bound, MatchParams};
use vstd::prelude::*;

verus! {

/// Largest magnitude of a route distance, in millimetres.
pub open spec fn max_route() -> int {
    0x4_0000_0000_0000_0000
}

pub open spec fn abs(x: int) -> int {
    if x < 0 {
        -x
    } else {
        x
    }
}

/// Distance along the network between two feet, given the shortest-path
/// result between their segments: on one segment, the gap between the two
/// arc lengths; otherwise the rest of the first segment, the path, and the
/// start of the second. `None` when the second segment cannot be reached.
pub open spec fn route_distance(from: ProjectionPoint, to: ProjectionPoint, cost: PathCost) -> Option<int> {
    if from.edge == to.edge {
        Some(abs(to.distance_along_edge - from.distance_along_edge))
    } else {
        match cost.path_distance {
            None => None,
            Some(sp) => Some(cost.from_edge_length - from.distance_along_edge + sp + to.distance_along_edge),
        }
    }
}

/// `ln p = -ln(beta) - |route - direct| / beta` in micro-nats, the quotient
/// rounded down; minus infinity for an unreachable route.
pub open spec fn transition_log_prob(route: Option<int>, direct: int, p: MatchParams) -> Option<int> {
    match route {
        None => None,
        Some(r) => Some(p.neg_log_beta - (abs(r - direct) * 1_000_000) / (p.beta as int)),
    }
}

/// `c` is the shortest-path result the network owes for a move from `a` to
/// `b`: the fresh one between their segments; on one segment it plays no part.
pub open spec fn is_route_cost(net: RoadNetwork, a: ProjectionPoint, b: ProjectionPoint, c: PathCost) -> bool {
    a.edge != b.edge ==> net.is_fresh_path_cost(a.edge as int, b.edge as int, c)
}

/// `x` is the transition score from `a` to `b` over the network's fresh
/// shortest path between their segments.
pub open spec fn is_transition_entry(
    net: RoadNetwork,
    a: CandidatePoint,
    b: CandidatePoint,
    direct: int,
    p: MatchParams,
    x: Option<i128>,
) -> bool {
    exists|c: PathCost|
        is_route_cost(net, a.projection, b.projection, c) && opt_int(x) == transition_log_prob(
            route_distance(a.projection, b.projection, c),
            direct,
            p,
        )
}

/// A transition score is determined by the candidates, the gap, the
/// parameters and the network.
pub proof fn lemma_transition_entry_unique(
    net: RoadNetwork,
    a: CandidatePoint,
    b: CandidatePoint,
    direct: int,
    p: MatchParams,
    x1: Option<i128>,
    x2: Option<i128>,
)
    requires
        is_transition_entry(net, a, b, direct, p, x1),
        is_transition_entry(net, a, b, direct, p, x2),
    ensures
        x1 == x2,
{
    let c1 = choose|c: PathCost|
        is_route_cost(net, a.projection, b.projection, c) && opt_int(x1) == transition_log_prob(
            route_distance(a.projection, b.projection, c),
            direct,
            p,
        );
    let c2 = choose|c: PathCost|
        is_route_cost(net, a.projection, b.projection, c) && opt_int(x2) == transition_log_prob(
            route_distance(a.projection, b.projection, c),
            direct,
            p,
        );
    if a.projection.edge != b.projection.edge {
        lemma_fresh_path_cost_unique(
            net.edges@,
            net.ends@,
            a.projection.edge as int,
            b.projection.edge as int,
            c1,
            c2,
        );
    }
    assert(opt_int(x1) == opt_int(x2));
}

/// The candidate's segment is one the network kept.
pub open spec fn on_network(c: CandidatePoint, net: RoadNetwork) -> bool {
    net.kept_segment(c.projection.edge as int)
}

/// Transition log-probability of a route of `route_distance` between two
/// observations `direct_distance` apart.
pub fn compute_transition_prob(route_distance: Option<i128>, direct_distance: u64, params: &MatchParams) -> (r:
    Option<i128>)
    requires
        params.wf(),
        route_distance matches Some(x) ==> -max_route() <= x <= max_route(),
    ensures
        opt_int(r) == transition_log_prob(opt_int(route_distance), direct_distance as int, *params),
        r matches Some(x) ==> -term_bound() <= x <= term_bound(),
{
    match route_distance {
        None => None,
        Some(route) => {
            let diff: i128 = route - direct_distance as i128;
            let gap: i128 = if diff < 0 {
                -diff
            } else {
                diff
            };
            assert(gap * 1_000_000 <= 0x8_0000_0000_0000_0000 * 1_000_000) by (nonlinear_arith)
                requires
                    0 <= gap <= 0x8_0000_0000_0000_0000,
            ;
            let scaled = gap * 1_000_000;
            let q = scaled / params.beta as i128;
            assert(0 <= q <= scaled) by (nonlinear_arith)
                requires
                    q == scaled / (params.beta as i128),
                    params.beta >= 1,
                    scaled >= 0,
            ;
            Some(params.neg_log_beta as i128 - q)
        },
    }
}

impl CandidatePoint {
    /// Distance along the network from this candidate to `other`.
    pub fn compute_distance_to(&self, other: &CandidatePoint, road_network: &RoadNetwork) -> (r: Option<i128>)
        requires
            road_network.wf(),
            on_network(*self, *road_network),
            on_network(*other, *road_network),
        ensures
            exists|c: PathCost|
                is_route_cost(*road_network, self.projection, other.projection, c) && opt_int(r) == route_distance(
                    self.projection,
                    other.projection,
                    c,
                ),
            r matches Some(x) ==> -max_route() <= x <= max_route(),
    {
        let a = self.projection.distance_along_edge as i128;
        let b = other.projection.distance_along_edge as i128;
        if self.projection.edge == other.projection.edge {
            let d = if b < a {
                a - b
            } else {
                b - a
            };
            let ghost c = PathCost { path_distance: None, from_edge_length: 0 };
            assert(opt_int(Some(d)) == route_distance(self.projection, other.projection, c));
            Some(d)
        } else {
            let cost = road_network.compute_edge_shortest_path(self.projection.edge, other.projection.edge);
            match cost.path_distance {
                None => {
                    assert(opt_int(None) == route_distance(self.projection, other.projection, cost));
                    None
                },
                Some(sp) => {
                    let d = cost.from_edge_length as i128 - a + sp as i128 + b;
                    assert(opt_int(Some(d)) == route_distance(self.projection, other.projection, cost));
                    Some(d)
                },
            }
        }
    }
}

/// Distance along the network between two candidates.
pub fn compute_route_distance(
    from_candidate: &CandidatePoint,
    to_candidate: &CandidatePoint,
    road_network: &RoadNetwork,
) -> (r: Option<i128>)
    requires
        road_network.wf(),
        on_network(*from_candidate, *road_network),
        on_network(*to_candidate, *road_network),
    ensures
        exists|c: PathCost|
            is_route_cost(*road_network, from_candidate.projection, to_candidate.projection, c) && opt_int(r)
                == route_distance(from_candidate.projection, to_candidate.projection, c),
        r matches Some(x) ==> -max_route() <= x <= max_route(),
{
    from_candidate.compute_distance_to(to_candidate, road_network)
}

/// Transition scores from each candidate of one observation (rows) to each
/// candidate of the next (columns); the observations are `direct_distance` apart.
pub fn compute_transition_matrix(
    prev_candidates: &Vec<CandidatePoint>,
    curr_candidates: &Vec<CandidatePoint>,
    direct_distance: u64,
    road_network: &RoadNetwork,
    params: &MatchParams,
) -> (r: Vec<Vec<Option<i128>>>)
    requires
        road_network.wf(),
        params.wf(),
        forall|i: int| 0 <= i < prev_candidates@.len() ==> on_network(#[trigger] prev_candidates@[i], *road_network),
        forall|j: int| 0 <= j < curr_candidates@.len() ==> on_network(#[trigger] curr_candidates@[j], *road_network),
    ensures
        r@.len() == prev_candidates@.len(),
        forall|i: int| 0 <= i < r@.len() ==> (#[trigger] r@[i])@.len() == curr_candidates@.len(),
        forall|i: int, j: int|
            0 <= i < r@.len() && 0 <= j < curr_candidates@.len() ==> is_transition_entry(
                *road_network,
                prev_candidates@[i],
                curr_candidates@[j],
                direct_distance as int,
                *params,
                #[trigger] r@[i]@[j],
            ),
        forall|i: int, j: int|
            0 <= i < r@.len() && 0 <= j < r@[i]@.len() && (#[trigger] r@[i]@[j]) is Some ==> -term_bound()
                <= r@[i]@[j]->0 <= term_bound(),
{
    let mut rows: Vec<Vec<Option<i128>>> = Vec::new();
    let mut i: usize = 0;
    while i < prev_candidates.len()
        invariant
            i <= prev_candidates@.len(),
            road_network.wf(),
            params.wf(),
            forall|i: int| 0 <= i < prev_candidates@.len() ==> on_network(#[trigger] prev_candidates@[i], *road_network),
            forall|j: int| 0 <= j < curr_candidates@.len() ==> on_network(#[trigger] curr_candidates@[j], *road_network),
            rows@.len() == i,
            forall|k: int| 0 <= k < i ==> (#[trigger] rows@[k])@.len() == curr_candidates@.len(),
            forall|k: int, j: int|
                0 <= k < i && 0 <= j < curr_candidates@.len() ==> is_transition_entry(
                    *road_network,
                    prev_candidates@[k],
                    curr_candidates@[j],
                    direct_distance as int,
                    *params,
                    #[trigger] rows@[k]@[j],
                ),
            forall|k: int, j: int|
                0 <= k < i && 0 <= j < rows@[k]@.len() && (#[trigger] rows@[k]@[j]) is Some ==> -term_bound()
                    <= rows@[k]@[j]->0 <= term_bound(),
        decreases prev_candidates@.len() - i,
    {
        let mut row: Vec<Option<i128>> = Vec::new();
        let mut j: usize = 0;
        while j < curr_candidates.len()
            invariant
                i < prev_candidates@.len(),
                j <= curr_candidates@.len(),
                road_network.wf(),
                params.wf(),
                forall|i: int|
                    0 <= i < prev_candidates@.len() ==> on_network(#[trigger] prev_candidates@[i], *road_network),
                forall|j: int|
                    0 <= j < curr_candidates@.len() ==> on_network(#[trigger] curr_candidates@[j], *road_network),
                row@.len() == j,
                forall|k: int|
                    0 <= k < j ==> is_transition_entry(
                        *road_network,
                        prev_candidates@[i as int],
                        curr_candidates@[k],
                        direct_distance as int,
                        *params,
                        #[trigger] row@[k],
                    ),
                forall|k: int| 0 <= k < j && (#[trigger] row@[k]) is Some ==> -term_bound() <= row@[k]->0 <= term_bound(),
            decreases curr_candidates@.len() - j,
        {
            let route = compute_route_distance(&prev_candidates[i], &curr_candidates[j], road_network);
            let x = compute_transition_prob(route, direct_distance, params);
            let ghost c = choose|c: PathCost|
                is_route_cost(*road_network, prev_candidates@[i as int].projection, curr_candidates@[j as int].projection, c)
                    && opt_int(route) == route_distance(
                    prev_candidates@[i as int].projection,
                    curr_candidates@[j as int].projection,
                    c,
                );
            assert(opt_int(x) == transition_log_prob(
                route_distance(prev_candidates@[i as int].projection, curr_candidates@[j as int].projection, c),
                direct_distance as int,
                *params,
            ));
            row.push(x);
            j += 1;
        }
        rows.push(row);
        i += 1;
    }
    rows
}

} // verus!
