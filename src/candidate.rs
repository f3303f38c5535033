//! Candidates: positions on nearby segments that an observation may stand for,
//! each scored under a Gaussian model of position error.
use crate::viterbi::{term_bound, MatchParams};
use vstd::prelude::*;

verus! {

/// Largest distance, in millimetres, that the fixed-point scores accept.
pub open spec fn max_distance() -> int {
    0x1_0000_0000
}

/// An observation projected onto segment `edge`: `distance` from the
/// observation to its foot, and `distance_along_edge` from the segment's start
/// to the foot, both in millimetres.
#[derive(Clone, Copy)]
pub struct ProjectionPoint {
    pub edge: usize,
    pub distance: u64,
    pub distance_along_edge: u64,
}

/// A projection with its observation log-probability in micro-nats.
#[derive(Clone, Copy)]
pub struct CandidatePoint {
    pub projection: ProjectionPoint,
    pub observation_prob: i128,
}

/// `ln p(d) = -ln(sigma * sqrt(2 pi)) - d^2 / (2 sigma^2)` in micro-nats, the
/// quotient rounded down.
pub open spec fn observation_log_prob(d: int, p: MatchParams) -> int {
    p.log_norm - (d * d * 1_000_000) / (2 * p.gps_sigma * p.gps_sigma)
}

/// A projection is kept when it lies within the search radius.
pub open spec fn kept(q: ProjectionPoint, p: MatchParams) -> bool {
    q.distance <= p.search_radius
}

/// The projections that are kept, in order.
pub open spec fn kept_projections(projs: Seq<ProjectionPoint>, p: MatchParams) -> Seq<ProjectionPoint>
    decreases projs.len(),
{
    if projs.len() == 0 {
        Seq::empty()
    } else {
        let rest = kept_projections(projs.drop_last(), p);
        if kept(projs.last(), p) {
            rest.push(projs.last())
        } else {
            rest
        }
    }
}

/// `c` holds one candidate for each kept projection, in order.
pub open spec fn is_candidate_list(c: Seq<CandidatePoint>, projs: Seq<ProjectionPoint>, p: MatchParams) -> bool {
    let k = kept_projections(projs, p);
    &&& c.len() == k.len()
    &&& forall|i: int|
        0 <= i < c.len() ==> (#[trigger] c[i]).projection == k[i] && c[i].observation_prob == observation_log_prob(
            k[i].distance as int,
            p,
        )
}

impl CandidatePoint {
    /// Observation log-probability of a foot at `distance` from the observation.
    pub fn compute_observation_prob(distance: u64, params: &MatchParams) -> (r: i128)
        requires
            params.wf(),
            distance <= max_distance(),
        ensures
            r == observation_log_prob(distance as int, *params),
            -term_bound() <= r <= term_bound(),
    {
        let d: u128 = distance as u128;
        let s: u128 = params.gps_sigma as u128;
        assert(d * d <= 0x1_0000_0000_0000_0000) by (nonlinear_arith)
            requires
                d <= 0x1_0000_0000,
        ;
        let dd = d * d;
        let num = dd * 1_000_000;
        assert(1 <= s * s <= 0x1_0000_0000_0000_0000) by (nonlinear_arith)
            requires
                1 <= s <= 0x1_0000_0000,
        ;
        let den = 2 * (s * s);
        let pen = num / den;
        assert(pen <= num) by (nonlinear_arith)
            requires
                pen == num / den,
                den >= 1,
        ;
        assert(2 * (s * s) == 2 * s * s) by (nonlinear_arith);
        params.log_norm as i128 - pen as i128
    }

    /// The candidate a projection makes.
    pub fn from_projection(projection: ProjectionPoint, params: &MatchParams) -> (r: CandidatePoint)
        requires
            params.wf(),
            projection.distance <= max_distance(),
        ensures
            r.projection == projection,
            r.observation_prob == observation_log_prob(projection.distance as int, *params),
            -term_bound() <= r.observation_prob <= term_bound(),
    {
        let observation_prob = Self::compute_observation_prob(projection.distance, params);
        CandidatePoint { projection, observation_prob }
    }

    pub fn distance(&self) -> (r: u64)
        ensures
            r == self.projection.distance,
    {
        self.projection.distance
    }

    pub fn distance_along_edge(&self) -> (r: u64)
        ensures
            r == self.projection.distance_along_edge,
    {
        self.projection.distance_along_edge
    }

    /// Index of the candidate's segment in the network.
    pub fn edge_id(&self) -> (r: usize)
        ensures
            r == self.projection.edge,
    {
        self.projection.edge
    }
}

/// Candidates of one observation: its projections within the search radius,
/// each with its observation log-probability.
pub fn generate_candidates_for_point(projections: &Vec<ProjectionPoint>, params: &MatchParams) -> (r: Vec<CandidatePoint>)
    requires
        params.wf(),
    ensures
        is_candidate_list(r@, projections@, *params),
        forall|i: int| 0 <= i < r@.len() ==> projections@.contains(#[trigger] r@[i].projection),
        forall|i: int| 0 <= i < r@.len() ==> -term_bound() <= #[trigger] r@[i].observation_prob <= term_bound(),
{
    let mut r: Vec<CandidatePoint> = Vec::new();
    let mut i: usize = 0;
    while i < projections.len()
        invariant
            i <= projections@.len(),
            params.wf(),
            is_candidate_list(r@, projections@.take(i as int), *params),
            forall|k: int| 0 <= k < r@.len() ==> projections@.contains(#[trigger] r@[k].projection),
            forall|k: int| 0 <= k < r@.len() ==> -term_bound() <= #[trigger] r@[k].observation_prob <= term_bound(),
        decreases projections@.len() - i,
    {
        let q = projections[i];
        let ghost before = r@;
        assert(projections@[i as int] == q);
        assert(projections@.take(i + 1).drop_last() =~= projections@.take(i as int));
        if q.distance <= params.search_radius {
            let c = CandidatePoint::from_projection(q, params);
            r.push(c);
            assert forall|k: int| 0 <= k < r@.len() implies (#[trigger] r@[k]).projection == kept_projections(
                projections@.take(i + 1),
                *params,
            )[k] && r@[k].observation_prob == observation_log_prob(
                kept_projections(projections@.take(i + 1), *params)[k].distance as int,
                *params,
            ) by {
                if k < before.len() {
                    assert(r@[k] == before[k]);
                }
            }
        }
        i += 1;
    }
    assert(projections@.take(i as int) =~= projections@);
    r
}

/// Candidates of every observation of a track, in order.
pub fn generate_candidates_for_track(steps: &Vec<Vec<ProjectionPoint>>, params: &MatchParams) -> (r: Vec<
    Vec<CandidatePoint>,
>)
    requires
        params.wf(),
    ensures
        r@.len() == steps@.len(),
        forall|t: int| 0 <= t < steps@.len() ==> is_candidate_list(#[trigger] r@[t]@, steps@[t]@, *params),
        forall|t: int, i: int|
            0 <= t < steps@.len() && 0 <= i < r@[t]@.len() ==> steps@[t]@.contains(#[trigger] r@[t]@[i].projection)
                && -term_bound() <= r@[t]@[i].observation_prob <= term_bound(),
{
    let mut r: Vec<Vec<CandidatePoint>> = Vec::new();
    let mut t: usize = 0;
    while t < steps.len()
        invariant
            t <= steps@.len(),
            params.wf(),
            r@.len() == t,
            forall|u: int| 0 <= u < t ==> is_candidate_list(#[trigger] r@[u]@, steps@[u]@, *params),
            forall|u: int, i: int|
                0 <= u < t && 0 <= i < r@[u]@.len() ==> steps@[u]@.contains(#[trigger] r@[u]@[i].projection)
                    && -term_bound() <= r@[u]@[i].observation_prob <= term_bound(),
        decreases steps@.len() - t,
    {
        let c = generate_candidates_for_point(&steps[t], params);
        r.push(c);
        t += 1;
    }
    r
}

/// An observation whose every projection lies beyond the search radius has
/// no candidate.
pub proof fn lemma_far_observation_has_no_candidate(projs: Seq<ProjectionPoint>, p: MatchParams)
    requires
        forall|i: int| 0 <= i < projs.len() ==> (#[trigger] projs[i]).distance > p.search_radius,
    ensures
        kept_projections(projs, p).len() == 0,
    decreases projs.len(),
{
    if projs.len() > 0 {
        let rest = projs.drop_last();
        assert forall|i: int| 0 <= i < rest.len() implies (#[trigger] rest[i]).distance > p.search_radius by {
            assert(rest[i] == projs[i]);
        }
        lemma_far_observation_has_no_candidate(rest, p);
    }
}

} // verus!
