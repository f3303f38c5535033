//! Matching a whole track: candidates, the Viterbi passes, and the result.
use crate::candidate::{generate_candidates_for_track, is_candidate_list, kept_projections, CandidatePoint, ProjectionPoint};
use crate::network::RoadNetwork;
use crate::transition::lemma_transition_entry_unique;
use crate::viterbi::{
    arg_best, backward_spec, indices_int, lattice_bounded, lattice_shaped, layer, lemma_backward_same,
    lemma_chosen_path_is_most_probable, lemma_final_score_is_path_score, lemma_lattice_backpointers_valid,
    lemma_layer_same, max_steps, network_transitions, no_less, opt_int, path_score, scores_int, scores_of,
    state_of_lattice, viterbi_backward, viterbi_forward, MatchParams, ViterbiState,
};
use rayon::iter::{IntoParallelRefIterator, ParallelIterator};
use vstd::prelude::*;

verus! {

/// Result of matching one track.
pub struct MatchResult {
    /// The chosen candidate of each step that has one, in step order.
    pub matched_points: Vec<CandidatePoint>,
    /// Final score of the chosen path; `None` is minus infinity.
    pub log_probability: Option<i128>,
    /// Index of each chosen candidate in its step's candidate list.
    pub path_indices: Vec<usize>,
    /// The candidates of every step.
    pub candidates: Vec<Vec<CandidatePoint>>,
}

/// Steps below `k` whose path index names one of their candidates.
pub open spec fn matched_steps(cands: Seq<Vec<CandidatePoint>>, path: Seq<int>, k: nat) -> Seq<int>
    decreases k,
{
    if k == 0 {
        Seq::empty()
    } else {
        let rest = matched_steps(cands, path, (k - 1) as nat);
        if 0 <= path[k - 1] < cands[k - 1]@.len() {
            rest.push(k - 1)
        } else {
            rest
        }
    }
}

proof fn lemma_matched_steps(cands: Seq<Vec<CandidatePoint>>, path: Seq<int>, k: nat)
    ensures
        matched_steps(cands, path, k).len() <= k,
        forall|i: int|
            0 <= i < matched_steps(cands, path, k).len() ==> 0 <= #[trigger] matched_steps(cands, path, k)[i] < k
                && 0 <= path[matched_steps(cands, path, k)[i]] < cands[matched_steps(cands, path, k)[i]]@.len(),
    decreases k,
{
    if k > 0 {
        lemma_matched_steps(cands, path, (k - 1) as nat);
    }
}

proof fn lemma_matched_steps_all(cands: Seq<Vec<CandidatePoint>>, path: Seq<int>, k: nat)
    requires
        forall|t: int| 0 <= t < k ==> 0 <= #[trigger] path[t] < cands[t]@.len(),
    ensures
        matched_steps(cands, path, k) == Seq::new(k, |i: int| i),
    decreases k,
{
    if k > 0 {
        lemma_matched_steps_all(cands, path, (k - 1) as nat);
        let _ = path[k - 1];
        assert(Seq::new((k - 1) as nat, |i: int| i).push(k - 1) =~= Seq::new(k, |i: int| i));
    }
}

/// The result reads the path of the backward pass over state `s`: one
/// entry for each step whose index names a candidate, and the final score of
/// the path's last candidate.
pub open spec fn result_follows(m: MatchResult, s: ViterbiState) -> bool {
    let cands = m.candidates@;
    let path = backward_spec(s);
    let steps = matched_steps(cands, path, path.len());
    let n = s.viterbi_prob@.len();
    &&& m.matched_points@.len() == steps.len()
    &&& m.path_indices@.len() == steps.len()
    &&& forall|k: int|
        0 <= k < steps.len() ==> m.path_indices@[k] == path[#[trigger] steps[k]] && m.matched_points@[k]
            == cands[steps[k]]@[path[steps[k]]]
    &&& opt_int(m.log_probability) == if path.len() == n && n > 0 && 0 <= path[n - 1] < s.viterbi_prob@[n - 1]@.len() {
        scores_int(s.viterbi_prob@[n - 1]@)[path[n - 1]]
    } else {
        None
    }
}

/// Index of the best candidate by observation score alone, the first on a tie.
pub open spec fn best_by_observation(c: Seq<CandidatePoint>) -> int {
    arg_best(Seq::new(c.len(), |j: int| Some(c[j].observation_prob as int)), c.len()).0
}

/// `r` is the result of matching a track with these projections and gaps.
pub open spec fn is_match_of(
    projections: Seq<Vec<ProjectionPoint>>,
    gaps: Seq<u64>,
    road_network: RoadNetwork,
    params: MatchParams,
    r: Option<MatchResult>,
) -> bool {
    &&& r is None <==> projections.len() == 0 || kept_projections(projections[0]@, params).len() == 0
    &&& r matches Some(m) ==> {
        &&& m.candidates@.len() == projections.len()
        &&& forall|t: int|
            0 <= t < projections.len() ==> is_candidate_list(#[trigger] m.candidates@[t]@, projections[t]@, params)
        &&& m.matched_points@.len() == m.path_indices@.len()
        &&& m.matched_points@.len() <= projections.len()
        &&& forall|k: int|
            0 <= k < m.matched_points@.len() ==> road_network.kept_segment(
                (#[trigger] m.matched_points@[k]).projection.edge as int,
            )
        &&& exists|obs: Seq<Vec<i128>>, trans: Seq<Vec<Vec<Option<i128>>>>, s: ViterbiState|
            {
                &&& scores_of(obs, m.candidates@)
                &&& network_transitions(road_network, m.candidates@, gaps, params, trans)
                &&& lattice_shaped(obs, trans)
                &&& lattice_bounded(obs, trans)
                &&& state_of_lattice(s, obs, trans)
                &&& result_follows(m, s)
            }
    }
    &&& projections.len() == 1 && kept_projections(projections[0]@, params).len() > 0 ==> (r matches Some(m) && {
        let best = best_by_observation(m.candidates@[0]@);
        &&& m.matched_points@ == seq![m.candidates@[0]@[best]]
        &&& m.path_indices@ == seq![best as usize]
        &&& m.log_probability == Some(m.candidates@[0]@[best].observation_prob)
    })
}

/// Matches a track given, for each observation, its projections onto the
/// segments near it, and `gaps[t]`, the distance between observations `t - 1`
/// and `t`. There is no result exactly when the track is empty or its first
/// observation has no candidate.
pub fn map_match(
    projections: &Vec<Vec<ProjectionPoint>>,
    gaps: &Vec<u64>,
    road_network: &RoadNetwork,
    params: &MatchParams,
) -> (r: Option<MatchResult>)
    requires
        road_network.wf(),
        params.wf(),
        gaps@.len() == projections@.len(),
        projections@.len() <= max_steps(),
        forall|t: int, i: int|
            0 <= t < projections@.len() && 0 <= i < projections@[t]@.len() ==> road_network.kept_segment(
                (#[trigger] projections@[t]@[i]).edge as int,
            ),
    ensures
        is_match_of(projections@, gaps@, *road_network, *params, r),
{
    let n = projections.len();
    if n == 0 {
        return None;
    }
    let candidates = generate_candidates_for_track(projections, params);
    proof {
        assert forall|t: int, i: int| 0 <= t < candidates@.len() && 0 <= i < candidates@[t]@.len() implies (
        #[trigger] candidates@[t]@[i]).projection.edge < road_network.edges@.len() && road_network.kept_segment(
            candidates@[t]@[i].projection.edge as int,
        ) by {
            let q = candidates@[t]@[i].projection;
            assert(projections@[t]@.contains(q));
            let w = choose|w: int| 0 <= w < projections@[t]@.len() && projections@[t]@[w] == q;
            assert(road_network.kept_segment(projections@[t]@[w].edge as int));
        }
        assert(candidates@[0]@.len() == kept_projections(projections@[0]@, *params).len());
    }
    let state = match viterbi_forward(&candidates, gaps, road_network, params) {
        None => {
            return None;
        },
        Some(s) => s,
    };
    let ghost (obs, trans) = choose|obs: Seq<Vec<i128>>, trans: Seq<Vec<Vec<Option<i128>>>>|
        {
            &&& scores_of(obs, candidates@)
            &&& network_transitions(*road_network, candidates@, gaps@, *params, trans)
            &&& lattice_shaped(obs, trans)
            &&& lattice_bounded(obs, trans)
            &&& state_of_lattice(state, obs, trans)
        };
    let path = viterbi_backward(&state);
    let ghost gpath = backward_spec(state);
    assert(path@.len() == gpath.len());
    let mut matched_points: Vec<CandidatePoint> = Vec::new();
    let mut path_indices: Vec<usize> = Vec::new();
    let mut t: usize = 0;
    while t < path.len()
        invariant
            t <= path@.len(),
            path@.len() == 0 || path@.len() == n,
            n == candidates@.len(),
            gpath == backward_spec(state),
            forall|u: int| 0 <= u < path@.len() ==> path@[u] as int == #[trigger] gpath[u],
            path@.len() == gpath.len(),
            matched_points@.len() == matched_steps(candidates@, gpath, t as nat).len(),
            path_indices@.len() == matched_steps(candidates@, gpath, t as nat).len(),
            matched_points@.len() <= t,
            forall|k: int|
                0 <= k < matched_points@.len() ==> path_indices@[k] == gpath[#[trigger] matched_steps(
                    candidates@,
                    gpath,
                    t as nat,
                )[k]] && matched_points@[k] == candidates@[matched_steps(candidates@, gpath, t as nat)[k]]@[gpath[matched_steps(
                    candidates@,
                    gpath,
                    t as nat,
                )[k]]],
        decreases path@.len() - t,
    {
        let idx = path[t];
        assert(path@[t as int] as int == gpath[t as int]);
        let ghost before = matched_steps(candidates@, gpath, t as nat);
        assert(matched_steps(candidates@, gpath, (t + 1) as nat) == if 0 <= gpath[t as int] < candidates@[t as int]@.len() {
            before.push(t as int)
        } else {
            before
        });
        if idx < candidates[t].len() {
            matched_points.push(candidates[t][idx]);
            path_indices.push(idx);
        }
        t += 1;
    }
    let last = &state.viterbi_prob[n - 1];
    let log_probability = if path.len() == n && path[n - 1] < last.len() {
        last[path[n - 1]]
    } else {
        None
    };
    let ghost gstate = state;
    let m = MatchResult { matched_points, log_probability, path_indices, candidates };
    proof {
        assert(result_follows(m, gstate));
        let steps = matched_steps(candidates@, gpath, gpath.len());
        lemma_matched_steps(candidates@, gpath, gpath.len());
        assert forall|k: int| 0 <= k < m.matched_points@.len() implies road_network.kept_segment(
            (#[trigger] m.matched_points@[k]).projection.edge as int,
        ) by {
            let st = steps[k];
            assert(0 <= st < candidates@.len());
            assert(0 <= gpath[st] < candidates@[st]@.len());
        }
        assert(scores_of(obs, m.candidates@) && network_transitions(*road_network, m.candidates@, gaps@, *params, trans)
            && lattice_shaped(obs, trans) && lattice_bounded(obs, trans) && state_of_lattice(gstate, obs, trans)
            && result_follows(m, gstate));
        if n == 1 && kept_projections(projections@[0]@, *params).len() > 0 {
            let c = candidates@[0]@;
            let v0 = gstate.viterbi_prob@[0]@;
            let _ = obs[0];
            assert(scores_int(v0) == layer(obs, trans, 0).0);
            assert(scores_int(v0) =~= Seq::new(c.len(), |j: int| Some(c[j].observation_prob as int)));
            let best = best_by_observation(c);
            crate::viterbi::lemma_arg_best(scores_int(v0), v0.len());
            assert(gpath =~= seq![best]);
            assert(matched_steps(candidates@, gpath, 0) =~= Seq::<int>::empty());
            assert(steps =~= seq![0int]);
            assert(steps[0] == 0);
            assert(m.path_indices@[0] as int == gpath[steps[0]]);
            assert(m.matched_points@[0] == candidates@[steps[0]]@[gpath[steps[0]]]);
            assert(m.matched_points@ =~= seq![c[best]]);
            assert(m.path_indices@ =~= seq![best as usize]);
            assert(opt_int(m.log_probability) == Some(c[best].observation_prob as int));
        }
    }
    Some(m)
}


/// When every observation of a track has a candidate, the log-probability of
/// its match is the sum of the observation scores of the chosen candidates
/// and of the transition scores between consecutive ones, and no other choice
/// of one candidate per observation scores more.
pub proof fn lemma_match_score_is_best_path_score(
    projections: Seq<Vec<ProjectionPoint>>,
    gaps: Seq<u64>,
    road_network: RoadNetwork,
    params: MatchParams,
    m: MatchResult,
)
    requires
        is_match_of(projections, gaps, road_network, params, Some(m)),
        forall|t: int| 0 <= t < projections.len() ==> kept_projections(#[trigger] projections[t]@, params).len() > 0,
    ensures
        m.path_indices@.len() == projections.len(),
        exists|obs: Seq<Vec<i128>>, trans: Seq<Vec<Vec<Option<i128>>>>|
            {
                &&& scores_of(obs, m.candidates@)
                &&& network_transitions(road_network, m.candidates@, gaps, params, trans)
                &&& opt_int(m.log_probability) == path_score(
                    obs,
                    trans,
                    indices_int(m.path_indices@),
                    (projections.len() - 1) as nat,
                )
                &&& forall|q: Seq<int>|
                    q.len() == projections.len() && (forall|t: int|
                        0 <= t < q.len() ==> 0 <= #[trigger] q[t] < m.candidates@[t]@.len()) ==> no_less(
                        opt_int(m.log_probability),
                        #[trigger] path_score(obs, trans, q, (projections.len() - 1) as nat),
                    )
            },
{
    let (obs, trans, s) = choose|obs: Seq<Vec<i128>>, trans: Seq<Vec<Vec<Option<i128>>>>, s: ViterbiState|
        {
            &&& scores_of(obs, m.candidates@)
            &&& network_transitions(road_network, m.candidates@, gaps, params, trans)
            &&& lattice_shaped(obs, trans)
            &&& lattice_bounded(obs, trans)
            &&& state_of_lattice(s, obs, trans)
            &&& result_follows(m, s)
        };
    let n = projections.len();
    assert forall|t: int| 0 <= t < obs.len() implies (#[trigger] obs[t])@.len() > 0 by {
        let _ = m.candidates@[t];
        let _ = projections[t];
    }
    lemma_final_score_is_path_score(obs, trans, s);
    let p = backward_spec(s);
    assert forall|t: int| 0 <= t < n implies 0 <= #[trigger] p[t] < m.candidates@[t]@.len() by {
        let _ = obs[t];
    }
    lemma_matched_steps_all(m.candidates@, p, n);
    let steps = matched_steps(m.candidates@, p, p.len());
    assert forall|t: int| 0 <= t < n implies indices_int(m.path_indices@)[t] == p[t] by {
        assert(steps[t] == t);
    }
    assert(indices_int(m.path_indices@) =~= p);
    let _ = obs[n - 1];
    assert(opt_int(m.log_probability) == scores_int(s.viterbi_prob@[n - 1]@)[p[n - 1]]);
    assert forall|q: Seq<int>|
        q.len() == n && (forall|t: int| 0 <= t < q.len() ==> 0 <= #[trigger] q[t] < m.candidates@[t]@.len()) implies no_less(
        opt_int(m.log_probability),
        #[trigger] path_score(obs, trans, q, (n - 1) as nat),
    ) by {
        assert forall|t: int| 0 <= t < obs.len() implies 0 <= #[trigger] q[t] < obs[t]@.len() by {
            let _ = m.candidates@[t];
            let _ = obs[t];
        }
        lemma_chosen_path_is_most_probable(obs, trans, s, q);
    }
    assert(scores_of(obs, m.candidates@) && network_transitions(road_network, m.candidates@, gaps, params, trans) && opt_int(
        m.log_probability,
    ) == path_score(obs, trans, indices_int(m.path_indices@), (n - 1) as nat));
}

proof fn lemma_matched_steps_same(c1: Seq<Vec<CandidatePoint>>, c2: Seq<Vec<CandidatePoint>>, path: Seq<int>, k: nat)
    requires
        forall|t: int| 0 <= t < k ==> (#[trigger] c1[t])@.len() == c2[t]@.len(),
    ensures
        matched_steps(c1, path, k) == matched_steps(c2, path, k),
    decreases k,
{
    if k > 0 {
        lemma_matched_steps_same(c1, c2, path, (k - 1) as nat);
        let _ = c1[k - 1];
    }
}

/// Both are the result of matching the same track, entry for entry.
pub open spec fn same_match(m1: MatchResult, m2: MatchResult) -> bool {
    &&& m1.candidates@.len() == m2.candidates@.len()
    &&& forall|t: int| 0 <= t < m1.candidates@.len() ==> (#[trigger] m1.candidates@[t])@ == m2.candidates@[t]@
    &&& m1.matched_points@ == m2.matched_points@
    &&& m1.path_indices@ == m2.path_indices@
    &&& m1.log_probability == m2.log_probability
}

/// A match is determined by the track, the network and the parameters:
/// matching a track twice, or in a batch beside others, gives the same result
/// whatever the shortest-path memo held and whatever ran in between.
pub proof fn lemma_match_is_determined(
    projections: Seq<Vec<ProjectionPoint>>,
    gaps: Seq<u64>,
    road_network: RoadNetwork,
    params: MatchParams,
    r1: Option<MatchResult>,
    r2: Option<MatchResult>,
)
    requires
        is_match_of(projections, gaps, road_network, params, r1),
        is_match_of(projections, gaps, road_network, params, r2),
    ensures
        r1 is Some <==> r2 is Some,
        r1 is Some ==> same_match(r1->0, r2->0),
{
    if r1 is Some {
        let m1 = r1->0;
        let m2 = r2->0;
        let n = projections.len();
        let (obs1, trans1, s1) = choose|obs: Seq<Vec<i128>>, trans: Seq<Vec<Vec<Option<i128>>>>, s: ViterbiState|
            {
                &&& scores_of(obs, m1.candidates@)
                &&& network_transitions(road_network, m1.candidates@, gaps, params, trans)
                &&& lattice_shaped(obs, trans)
                &&& lattice_bounded(obs, trans)
                &&& state_of_lattice(s, obs, trans)
                &&& result_follows(m1, s)
            };
        let (obs2, trans2, s2) = choose|obs: Seq<Vec<i128>>, trans: Seq<Vec<Vec<Option<i128>>>>, s: ViterbiState|
            {
                &&& scores_of(obs, m2.candidates@)
                &&& network_transitions(road_network, m2.candidates@, gaps, params, trans)
                &&& lattice_shaped(obs, trans)
                &&& lattice_bounded(obs, trans)
                &&& state_of_lattice(s, obs, trans)
                &&& result_follows(m2, s)
            };
        let c1 = m1.candidates@;
        let c2 = m2.candidates@;
        assert forall|t: int| 0 <= t < n implies (#[trigger] c1[t])@ == c2[t]@ by {
            let k = kept_projections(projections[t]@, params);
            assert(is_candidate_list(c1[t]@, projections[t]@, params));
            assert(is_candidate_list(c2[t]@, projections[t]@, params));
            assert forall|i: int| 0 <= i < k.len() implies c1[t]@[i] == c2[t]@[i] by {
                let _ = c1[t]@[i];
                let _ = c2[t]@[i];
            }
            assert(c1[t]@ =~= c2[t]@);
        }
        assert forall|t: int| 0 <= t < n implies (#[trigger] obs1[t])@ == obs2[t]@ by {
            let _ = obs2[t];
            let _ = c1[t];
            assert forall|i: int| 0 <= i < obs1[t]@.len() implies obs1[t]@[i] == obs2[t]@[i] by {
                let _ = c1[t]@[i];
                let _ = c2[t]@[i];
            }
            assert(obs1[t]@ =~= obs2[t]@);
        }
        assert forall|u: int, i: int, j: int|
            1 <= u < n && 0 <= i < obs1[u - 1]@.len() && 0 <= j < obs1[u]@.len() implies (
            #[trigger] trans1[u]@[i]@[j]) == trans2[u]@[i]@[j] by {
            let _ = obs1[u - 1];
            let _ = obs1[u];
            let _ = c1[u - 1];
            let _ = c1[u];
            let _ = trans1[u];
            let _ = trans2[u];
            let _ = c1[u - 1]@[i];
            let _ = c1[u]@[j];
            lemma_transition_entry_unique(
                road_network,
                c1[u - 1]@[i],
                c1[u]@[j],
                gaps[u] as int,
                params,
                trans1[u]@[i]@[j],
                trans2[u]@[i]@[j],
            );
        }
        assert forall|t: int| 0 <= t < n implies scores_int((#[trigger] s1.viterbi_prob@[t])@) == scores_int(
            s2.viterbi_prob@[t]@,
        ) && indices_int(s1.backpointer@[t]@) == indices_int(s2.backpointer@[t]@) by {
            lemma_layer_same(obs1, trans1, obs2, trans2, t as nat);
            let _ = s1.viterbi_prob[t];
            let _ = s2.viterbi_prob[t];
        }
        lemma_lattice_backpointers_valid(obs1, trans1, s1);
        lemma_lattice_backpointers_valid(obs2, trans2, s2);
        lemma_backward_same(s1, s2);
        let p = backward_spec(s1);
        lemma_matched_steps_same(c1, c2, p, p.len());
        let steps = matched_steps(c1, p, p.len());
        lemma_matched_steps(c1, p, p.len());
        assert forall|k: int| 0 <= k < steps.len() implies m1.matched_points@[k] == m2.matched_points@[k]
            && m1.path_indices@[k] == m2.path_indices@[k] by {
            let st = steps[k];
            let _ = c1[st];
        }
        assert(m1.matched_points@ =~= m2.matched_points@);
        assert(m1.path_indices@ =~= m2.path_indices@);
        if n > 0 {
            let _ = s1.viterbi_prob[n - 1];
            let l1 = s1.viterbi_prob@[n - 1]@;
            let l2 = s2.viterbi_prob@[n - 1]@;
            assert(scores_int(l1).len() == l1.len());
            assert(scores_int(l2).len() == l2.len());
        }
        assert(opt_int(m1.log_probability) == opt_int(m2.log_probability));
    }
}

/// A track as the matcher takes it: for each observation, its projections onto
/// the segments near it and its distance from the previous observation.
pub struct ObservedTrack {
    pub id: String,
    pub projections: Vec<Vec<ProjectionPoint>>,
    pub gaps: Vec<u64>,
}

/// The track can be matched against the network.
pub open spec fn track_fits(t: ObservedTrack, net: RoadNetwork) -> bool {
    &&& t.gaps@.len() == t.projections@.len()
    &&& t.projections@.len() <= max_steps()
    &&& forall|s: int, i: int|
        0 <= s < t.projections@.len() && 0 <= i < t.projections@[s]@.len() ==> net.kept_segment(
            (#[trigger] t.projections@[s]@[i]).edge as int,
        )
}

/// Result of one track of a batch.
pub struct BatchMatchResult {
    pub track_id: String,
    pub result: Option<MatchResult>,
}

/// `r` is the outcome of matching track `t`.
pub open spec fn is_batch_entry(t: ObservedTrack, net: RoadNetwork, p: MatchParams, r: BatchMatchResult) -> bool {
    &&& r.track_id@ == t.id@
    &&& is_match_of(t.projections@, t.gaps@, net, p, r.result)
}

/// Matches one track of a batch.
pub fn match_one(track: &ObservedTrack, road_network: &RoadNetwork, params: &MatchParams) -> (r: BatchMatchResult)
    requires
        road_network.wf(),
        params.wf(),
        track_fits(*track, *road_network),
    ensures
        is_batch_entry(*track, *road_network, *params, r),
{
    BatchMatchResult {
        track_id: track.id.clone(),
        result: map_match(&track.projections, &track.gaps, road_network, params),
    }
}

/// Relies on rayon's indexed `par_iter().map(..).collect()` into a `Vec`: the
/// closure runs once per track and the results keep the tracks' order.
#[verifier::external_body]
fn match_in_parallel(tracks: &Vec<ObservedTrack>, road_network: &RoadNetwork, params: &MatchParams) -> (r: Vec<
    BatchMatchResult,
>)
    requires
        road_network.wf(),
        params.wf(),
        forall|i: int| 0 <= i < tracks@.len() ==> track_fits(#[trigger] tracks@[i], *road_network),
    ensures
        r@.len() == tracks@.len(),
        forall|i: int| 0 <= i < tracks@.len() ==> is_batch_entry(tracks@[i], *road_network, *params, #[trigger] r@[i]),
{
    tracks.par_iter().map(|t| match_one(t, road_network, params)).collect()
}

/// Matches the tracks independently and in parallel over one shared network;
/// the results come back in the tracks' order.
pub fn map_match_batch(tracks: &Vec<ObservedTrack>, road_network: &RoadNetwork, params: &MatchParams) -> (r: Vec<
    BatchMatchResult,
>)
    requires
        road_network.wf(),
        params.wf(),
        forall|i: int| 0 <= i < tracks@.len() ==> track_fits(#[trigger] tracks@[i], *road_network),
    ensures
        r@.len() == tracks@.len(),
        forall|i: int| 0 <= i < tracks@.len() ==> is_batch_entry(tracks@[i], *road_network, *params, #[trigger] r@[i]),
{
    match_in_parallel(tracks, road_network, params)
}

/// Entries of a batch that matched, in order, as (track id, result).
pub open spec fn successes(b: Seq<BatchMatchResult>) -> Seq<(Seq<char>, MatchResult)>
    decreases b.len(),
{
    if b.len() == 0 {
        Seq::empty()
    } else {
        let rest = successes(b.drop_first());
        match b[0].result {
            Some(m) => seq![(b[0].track_id@, m)] + rest,
            None => rest,
        }
    }
}

pub open spec fn id_views(r: Seq<(String, MatchResult)>) -> Seq<(Seq<char>, MatchResult)> {
    r.map_values(|e: (String, MatchResult)| (e.0@, e.1))
}

/// Keeps the entries that matched, in order.
pub fn keep_successes(batch: Vec<BatchMatchResult>) -> (r: Vec<(String, MatchResult)>)
    ensures
        id_views(r@) == successes(batch@),
{
    let ghost all = batch@;
    let mut rest = batch;
    let mut r: Vec<(String, MatchResult)> = Vec::new();
    assert(all.subrange(all.len() as int, all.len() as int) =~= Seq::<BatchMatchResult>::empty());
    while rest.len() > 0
        invariant
            rest@ == all.take(rest@.len() as int),
            rest@.len() <= all.len(),
            id_views(r@) == successes(all.subrange(rest@.len() as int, all.len() as int)),
        decreases rest@.len(),
    {
        let ghost k = (rest@.len() - 1) as int;
        let ghost before = r@;
        let e = rest.pop().unwrap();
        assert(e == all[k]);
        assert(rest@ =~= all.take(k));
        assert(all.subrange(k, all.len() as int).drop_first() =~= all.subrange(k + 1, all.len() as int));
        assert(all.subrange(k, all.len() as int)[0] == e);
        match e.result {
            Some(m) => {
                r.insert(0, (e.track_id, m));
                assert(id_views(r@) =~= seq![(e.track_id@, m)] + id_views(before));
            },
            None => {},
        }
    }
    assert(all.subrange(0, all.len() as int) =~= all);
    r
}

/// Matches the tracks in parallel and keeps those that matched, in order,
/// with their ids.
pub fn map_match_batch_successful(tracks: &Vec<ObservedTrack>, road_network: &RoadNetwork, params: &MatchParams) -> (r:
    Vec<(String, MatchResult)>)
    requires
        road_network.wf(),
        params.wf(),
        forall|i: int| 0 <= i < tracks@.len() ==> track_fits(#[trigger] tracks@[i], *road_network),
    ensures
        exists|b: Seq<BatchMatchResult>|
            {
                &&& b.len() == tracks@.len()
                &&& forall|i: int| 0 <= i < tracks@.len() ==> is_batch_entry(tracks@[i], *road_network, *params, #[trigger] b[i])
                &&& id_views(r@) == successes(b)
            },
{
    let batch = map_match_batch(tracks, road_network, params);
    let ghost b = batch@;
    keep_successes(batch)
}

} // verus!
