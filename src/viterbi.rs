//! The Viterbi algorithm over a lattice of candidates: scores, backpointers,
//! the most probable path, and what is proved of it.
use crate::candidate::CandidatePoint;
use crate::network::RoadNetwork;
use crate::transition::{compute_transition_matrix, is_transition_entry, on_network};
use vstd::prelude::*;

verus! {

/// Matching parameters in fixed point: `gps_sigma`, `beta` and
/// `search_radius` in millimetres; `log_norm` is `-ln(sigma * sqrt(2 pi))` and
/// `neg_log_beta` is `-ln(beta)`, both in micro-nats with sigma and beta in metres.
#[derive(Clone, Copy)]
pub struct MatchParams {
    pub gps_sigma: u64,
    pub log_norm: i64,
    pub beta: u64,
    pub neg_log_beta: i64,
    pub search_radius: u64,
}

impl MatchParams {
    /// Positive sigma and beta; sigma and the radius within the distances
    /// that the fixed-point scores accept.
    pub open spec fn wf(&self) -> bool {
        &&& 0 < self.gps_sigma <= 0x1_0000_0000
        &&& 0 < self.beta
        &&& self.search_radius <= 0x1_0000_0000
    }
}

impl Default for MatchParams {
    /// Sigma 50 m, beta 5 m, search radius 100 m.
    fn default() -> (r: MatchParams)
        ensures
            r.gps_sigma == 50_000,
            r.log_norm == -4_830_962,
            r.beta == 5_000,
            r.neg_log_beta == -1_609_438,
            r.search_radius == 100_000,
    {
        MatchParams {
            gps_sigma: 50_000,
            log_norm: -4_830_962,
            beta: 5_000,
            neg_log_beta: -1_609_438,
            search_radius: 100_000,
        }
    }
}

/// Largest magnitude of a single observation or transition term (2^90):
/// with at most 2^32 steps, sums of terms fit in `i128`.
pub open spec fn term_bound() -> int {
    0x40000000000000000000000
}

/// Largest number of steps of a lattice.
pub open spec fn max_steps() -> int {
    0x100000000
}

/// A stored score as a mathematical one.
pub open spec fn opt_int(a: Option<i128>) -> Option<int> {
    match a {
        Some(x) => Some(x as int),
        None => None,
    }
}

/// Stored scores as mathematical ones.
pub open spec fn scores_int(s: Seq<Option<i128>>) -> Seq<Option<int>> {
    s.map_values(|a: Option<i128>| opt_int(a))
}

/// Stored indices as mathematical ones.
pub open spec fn indices_int(s: Seq<usize>) -> Seq<int> {
    s.map_values(|a: usize| a as int)
}

/// Sum of two log-probabilities, minus infinity absorbing.
pub open spec fn add_log(a: Option<int>, b: Option<int>) -> Option<int> {
    match (a, b) {
        (Some(x), Some(y)) => Some(x + y),
        _ => None,
    }
}

/// `a` is strictly larger than `b`, minus infinity below every number.
pub open spec fn exceeds(a: Option<int>, b: Option<int>) -> bool {
    match (a, b) {
        (Some(x), Some(y)) => x > y,
        (Some(_), None) => true,
        _ => false,
    }
}

/// Best predecessor of candidate `j` among the first `k` previous ones:
/// its index and score, the earliest one winning a tie.
pub open spec fn best_pred(prev: Seq<Option<int>>, tm: Seq<Vec<Option<i128>>>, j: int, k: nat) -> (int, Option<int>)
    decreases k,
{
    if k == 0 {
        (0, None)
    } else {
        let (b, m) = best_pred(prev, tm, j, (k - 1) as nat);
        let p = add_log(prev[k - 1], opt_int(tm[k - 1]@[j]));
        if exceeds(p, m) {
            ((k - 1) as int, p)
        } else {
            (b, m)
        }
    }
}

/// Index of the first maximum among the first `k` scores, with that score.
pub open spec fn arg_best(v: Seq<Option<int>>, k: nat) -> (int, Option<int>)
    decreases k,
{
    if k == 0 {
        (0, None)
    } else {
        let (b, m) = arg_best(v, (k - 1) as nat);
        if exceeds(v[k - 1], m) {
            ((k - 1) as int, v[k - 1])
        } else {
            (b, m)
        }
    }
}

/// A layer that starts the chain afresh from observation scores alone.
pub open spec fn fresh_layer_spec(o: Seq<i128>) -> (Seq<Option<int>>, Seq<int>) {
    (Seq::new(o.len(), |j: int| Some(o[j] as int)), Seq::new(o.len(), |j: int| 0int))
}

/// Layer `t` of the lattice: best scores and backpointers.
pub open spec fn layer(obs: Seq<Vec<i128>>, trans: Seq<Vec<Vec<Option<i128>>>>, t: nat) -> (Seq<Option<int>>, Seq<int>)
    decreases t,
{
    let o = obs[t as int]@;
    if t == 0 {
        fresh_layer_spec(o)
    } else if o.len() == 0 {
        (Seq::empty(), Seq::empty())
    } else if obs[t - 1]@.len() == 0 {
        fresh_layer_spec(o)
    } else {
        let prev = layer(obs, trans, (t - 1) as nat).0;
        let tm = trans[t as int]@;
        (
            Seq::new(o.len(), |j: int| add_log(best_pred(prev, tm, j, prev.len()).1, Some(o[j] as int))),
            Seq::new(o.len(), |j: int| best_pred(prev, tm, j, prev.len()).0),
        )
    }
}

/// Transition matrices fit the candidate lists they join.
pub open spec fn lattice_shaped(obs: Seq<Vec<i128>>, trans: Seq<Vec<Vec<Option<i128>>>>) -> bool {
    &&& trans.len() == obs.len()
    &&& forall|t: int|
        #![trigger trans[t]]
        1 <= t < obs.len() && obs[t - 1]@.len() > 0 && obs[t]@.len() > 0 ==> {
            &&& trans[t]@.len() == obs[t - 1]@.len()
            &&& forall|i: int| 0 <= i < trans[t]@.len() ==> (#[trigger] trans[t]@[i])@.len() == obs[t]@.len()
        }
}

/// Every term fits the fixed-point range, and the lattice is not too long.
pub open spec fn lattice_bounded(obs: Seq<Vec<i128>>, trans: Seq<Vec<Vec<Option<i128>>>>) -> bool {
    &&& obs.len() <= max_steps()
    &&& forall|t: int, j: int|
        0 <= t < obs.len() && 0 <= j < obs[t]@.len() ==> -term_bound() <= #[trigger] obs[t]@[j] <= term_bound()
    &&& forall|t: int, i: int, j: int|
        0 <= t < trans.len() && 0 <= i < trans[t]@.len() && 0 <= j < trans[t]@[i]@.len()
            && (#[trigger] trans[t]@[i]@[j]) is Some ==> -term_bound() <= trans[t]@[i]@[j]->0 <= term_bound()
}


/// Scores and backpointers of every step of a Viterbi pass.
pub struct ViterbiState {
    /// `viterbi_prob[t][i]`: best score of a path ending at candidate `i` of step `t`.
    pub viterbi_prob: Vec<Vec<Option<i128>>>,
    /// `backpointer[t][i]`: index of that path's candidate at step `t - 1`.
    pub backpointer: Vec<Vec<usize>>,
}

/// The state holds exactly the layers of the lattice.
pub open spec fn state_of_lattice(s: ViterbiState, obs: Seq<Vec<i128>>, trans: Seq<Vec<Vec<Option<i128>>>>) -> bool {
    &&& s.viterbi_prob.len() == obs.len()
    &&& s.backpointer.len() == obs.len()
    &&& forall|t: int|
        #![trigger s.viterbi_prob[t]]
        0 <= t < obs.len() ==> scores_int(s.viterbi_prob[t]@) == layer(obs, trans, t as nat).0
            && indices_int(s.backpointer[t]@) == layer(obs, trans, t as nat).1
}

proof fn lemma_best_pred(prev: Seq<Option<int>>, tm: Seq<Vec<Option<i128>>>, j: int, k: nat, c: int)
    requires
        k <= prev.len(),
        k <= tm.len(),
        forall|i: int| 0 <= i < k ==> j < (#[trigger] tm[i])@.len(),
        forall|i: int| 0 <= i < k && (#[trigger] prev[i]) is Some ==> -c <= prev[i]->0 <= c,
        forall|i: int|
            0 <= i < k && (#[trigger] tm[i])@[j] is Some ==> -term_bound() <= tm[i]@[j]->0 <= term_bound(),
    ensures
        best_pred(prev, tm, j, k).1 is Some ==> -(c + term_bound()) <= best_pred(prev, tm, j, k).1->0 <= c
            + term_bound(),
        k > 0 ==> 0 <= best_pred(prev, tm, j, k).0 < k,
        k == 0 ==> best_pred(prev, tm, j, k).0 == 0,
    decreases k,
{
    if k > 0 {
        lemma_best_pred(prev, tm, j, (k - 1) as nat, c);
        let _ = tm[k - 1];
        let _ = prev[k - 1];
    }
}

proof fn lemma_layer(obs: Seq<Vec<i128>>, trans: Seq<Vec<Vec<Option<i128>>>>, t: nat)
    requires
        lattice_shaped(obs, trans),
        lattice_bounded(obs, trans),
        t < obs.len(),
    ensures
        layer(obs, trans, t).0.len() == obs[t as int]@.len(),
        layer(obs, trans, t).1.len() == obs[t as int]@.len(),
        forall|j: int|
            0 <= j < obs[t as int]@.len() && (#[trigger] layer(obs, trans, t).0[j]) is Some ==> -(2 * t + 1)
                * term_bound() <= layer(obs, trans, t).0[j]->0 <= (2 * t + 1) * term_bound(),
        forall|j: int|
            0 <= j < obs[t as int]@.len() ==> 0 <= #[trigger] layer(obs, trans, t).1[j] && (t > 0 && obs[t
                - 1]@.len() > 0 ==> layer(obs, trans, t).1[j] < obs[t - 1]@.len()),
    decreases t,
{
    let o = obs[t as int]@;
    if t > 0 && o.len() > 0 && obs[t - 1]@.len() > 0 {
        lemma_layer(obs, trans, (t - 1) as nat);
        let prev = layer(obs, trans, (t - 1) as nat).0;
        let tm = trans[t as int]@;
        let c = (2 * (t - 1) + 1) * term_bound();
        assert forall|j: int| 0 <= j < o.len() implies {
            &&& (best_pred(prev, tm, j, prev.len()).1 is Some ==> -(c + term_bound()) <= best_pred(
                prev,
                tm,
                j,
                prev.len(),
            ).1->0 <= c + term_bound())
            &&& 0 <= best_pred(prev, tm, j, prev.len()).0 < prev.len()
        } by {
            assert(-term_bound() <= obs[t as int]@[j] <= term_bound());
            assert forall|i: int| 0 <= i < prev.len() && (#[trigger] tm[i])@[j] is Some implies -term_bound()
                <= tm[i]@[j]->0 <= term_bound() by {
                assert(-term_bound() <= trans[t as int]@[i]@[j]->0 <= term_bound());
            }
            lemma_best_pred(prev, tm, j, prev.len(), c);
        }
        assert forall|j: int| 0 <= j < o.len() && (#[trigger] layer(obs, trans, t).0[j]) is Some implies -(2
            * t + 1) * term_bound() <= layer(obs, trans, t).0[j]->0 <= (2 * t + 1) * term_bound() by {
            assert(-term_bound() <= obs[t as int]@[j] <= term_bound());
        }
    } else if t > 0 && o.len() > 0 {
        assert forall|j: int| 0 <= j < o.len() && (#[trigger] layer(obs, trans, t).0[j]) is Some implies -(2
            * t + 1) * term_bound() <= layer(obs, trans, t).0[j]->0 <= (2 * t + 1) * term_bound() by {
            assert(-term_bound() <= obs[t as int]@[j] <= term_bound());
        }
    } else if t == 0 {
        assert forall|j: int| 0 <= j < o.len() && (#[trigger] layer(obs, trans, t).0[j]) is Some implies -(2
            * t + 1) * term_bound() <= layer(obs, trans, t).0[j]->0 <= (2 * t + 1) * term_bound() by {
            assert(-term_bound() <= obs[t as int]@[j] <= term_bound());
        }
    }
}

/// Scores of a step that starts the chain afresh, with zero backpointers.
fn fresh_layer(o: &Vec<i128>) -> (r: (Vec<Option<i128>>, Vec<usize>))
    ensures
        scores_int(r.0@) == fresh_layer_spec(o@).0,
        indices_int(r.1@) == fresh_layer_spec(o@).1,
{
    let mut v: Vec<Option<i128>> = Vec::new();
    let mut b: Vec<usize> = Vec::new();
    let mut j: usize = 0;
    while j < o.len()
        invariant
            j <= o@.len(),
            v@.len() == j,
            b@.len() == j,
            forall|k: int| 0 <= k < j ==> opt_int(#[trigger] v@[k]) == Some(o@[k] as int),
            forall|k: int| 0 <= k < j ==> #[trigger] b@[k] == 0,
        decreases o@.len() - j,
    {
        v.push(Some(o[j]));
        b.push(0);
        j += 1;
    }
    assert(scores_int(v@) =~= fresh_layer_spec(o@).0);
    assert(indices_int(b@) =~= fresh_layer_spec(o@).1);
    (v, b)
}

/// Best predecessor of candidate `j` under transition matrix `tm`.
fn best_predecessor(prev: &Vec<Option<i128>>, tm: &Vec<Vec<Option<i128>>>, j: usize, Ghost(c): Ghost<int>) -> (r: (
    usize,
    Option<i128>,
))
    requires
        prev@.len() == tm@.len(),
        forall|i: int| 0 <= i < tm@.len() ==> j < (#[trigger] tm@[i])@.len(),
        forall|i: int| 0 <= i < prev@.len() && (#[trigger] prev@[i]) is Some ==> -c <= prev@[i]->0 <= c,
        forall|i: int|
            0 <= i < tm@.len() && (#[trigger] tm@[i])@[j as int] is Some ==> -term_bound() <= tm@[i]@[j as int]->0
                <= term_bound(),
        0 <= c <= 0x10000000000000000000000000000000 - term_bound(),
    ensures
        r.0 as int == best_pred(scores_int(prev@), tm@, j as int, prev@.len()).0,
        opt_int(r.1) == best_pred(scores_int(prev@), tm@, j as int, prev@.len()).1,
        r.1 is Some ==> -(c + term_bound()) <= r.1->0 <= c + term_bound(),
{
    let ghost sp = scores_int(prev@);
    let mut best: usize = 0;
    let mut max: Option<i128> = None;
    let mut i: usize = 0;
    while i < prev.len()
        invariant
            i <= prev@.len(),
            sp == scores_int(prev@),
            prev@.len() == tm@.len(),
            forall|i: int| 0 <= i < tm@.len() ==> j < (#[trigger] tm@[i])@.len(),
            forall|i: int| 0 <= i < prev@.len() && (#[trigger] prev@[i]) is Some ==> -c <= prev@[i]->0 <= c,
            forall|i: int|
                0 <= i < tm@.len() && (#[trigger] tm@[i])@[j as int] is Some ==> -term_bound()
                    <= tm@[i]@[j as int]->0 <= term_bound(),
            0 <= c <= 0x10000000000000000000000000000000 - term_bound(),
            best as int == best_pred(sp, tm@, j as int, i as nat).0,
            opt_int(max) == best_pred(sp, tm@, j as int, i as nat).1,
            max is Some ==> -(c + term_bound()) <= max->0 <= c + term_bound(),
        decreases prev@.len() - i,
    {
        let a = prev[i];
        let b = tm[i][j];
        assert(a is Some ==> -c <= a->0 <= c);
        assert(b is Some ==> -term_bound() <= b->0 <= term_bound());
        let p: Option<i128> = match (a, b) {
            (Some(x), Some(y)) => Some(x + y),
            _ => None,
        };
        let better = match (p, max) {
            (Some(x), Some(y)) => x > y,
            (Some(_), None) => true,
            _ => false,
        };
        assert(sp[i as int] == opt_int(prev@[i as int]));
        if better {
            best = i;
            max = p;
        }
        i += 1;
    }
    (best, max)
}

/// Scores and backpointers of a step whose previous step has candidates.
fn next_layer(prev: &Vec<Option<i128>>, tm: &Vec<Vec<Option<i128>>>, o: &Vec<i128>, Ghost(c): Ghost<int>) -> (r: (
    Vec<Option<i128>>,
    Vec<usize>,
))
    requires
        prev@.len() == tm@.len(),
        forall|i: int| 0 <= i < tm@.len() ==> (#[trigger] tm@[i])@.len() == o@.len(),
        forall|i: int| 0 <= i < prev@.len() && (#[trigger] prev@[i]) is Some ==> -c <= prev@[i]->0 <= c,
        forall|i: int, j: int|
            0 <= i < tm@.len() && 0 <= j < tm@[i]@.len() && (#[trigger] tm@[i]@[j]) is Some ==> -term_bound()
                <= tm@[i]@[j]->0 <= term_bound(),
        forall|j: int| 0 <= j < o@.len() ==> -term_bound() <= #[trigger] o@[j] <= term_bound(),
        0 <= c <= 0x8000000000000000000000000000000,
    ensures
        scores_int(r.0@) == Seq::new(
            o@.len(),
            |j: int| add_log(best_pred(scores_int(prev@), tm@, j, prev@.len()).1, Some(o@[j] as int)),
        ),
        indices_int(r.1@) == Seq::new(o@.len(), |j: int| best_pred(scores_int(prev@), tm@, j, prev@.len()).0),
{
    let ghost sp = scores_int(prev@);
    let ghost want_v = Seq::new(
        o@.len(),
        |j: int| add_log(best_pred(sp, tm@, j, prev@.len()).1, Some(o@[j] as int)),
    );
    let ghost want_b = Seq::new(o@.len(), |j: int| best_pred(sp, tm@, j, prev@.len()).0);
    let mut v: Vec<Option<i128>> = Vec::new();
    let mut b: Vec<usize> = Vec::new();
    let mut j: usize = 0;
    while j < o.len()
        invariant
            j <= o@.len(),
            sp == scores_int(prev@),
            prev@.len() == tm@.len(),
            forall|i: int| 0 <= i < tm@.len() ==> (#[trigger] tm@[i])@.len() == o@.len(),
            forall|i: int| 0 <= i < prev@.len() && (#[trigger] prev@[i]) is Some ==> -c <= prev@[i]->0 <= c,
            forall|i: int, j: int|
                0 <= i < tm@.len() && 0 <= j < tm@[i]@.len() && (#[trigger] tm@[i]@[j]) is Some
                    ==> -term_bound() <= tm@[i]@[j]->0 <= term_bound(),
            forall|j: int| 0 <= j < o@.len() ==> -term_bound() <= #[trigger] o@[j] <= term_bound(),
            0 <= c <= 0x8000000000000000000000000000000,
            want_v == Seq::new(
                o@.len(),
                |j: int| add_log(best_pred(sp, tm@, j, prev@.len()).1, Some(o@[j] as int)),
            ),
            want_b == Seq::new(o@.len(), |j: int| best_pred(sp, tm@, j, prev@.len()).0),
            v@.len() == j,
            b@.len() == j,
            forall|k: int| 0 <= k < j ==> opt_int(#[trigger] v@[k]) == want_v[k],
            forall|k: int| 0 <= k < j ==> #[trigger] b@[k] as int == want_b[k],
        decreases o@.len() - j,
    {
        let (k, m) = best_predecessor(prev, tm, j, Ghost(c));
        let x = o[j];
        let s: Option<i128> = match m {
            Some(y) => Some(y + x),
            None => None,
        };
        v.push(s);
        b.push(k);
        j += 1;
    }
    assert(scores_int(v@) =~= want_v);
    assert(indices_int(b@) =~= want_b);
    (v, b)
}


/// Forward pass of the Viterbi algorithm. `obs[t][i]` is the observation
/// score of candidate `i` at step `t`; `trans[t][i][j]` is the transition
/// score from candidate `i` of step `t - 1` to candidate `j` of step `t`.
/// A step without candidates is a dead step; the step after it starts afresh.
/// Fails exactly when there are no steps or the first step has no candidate.
pub fn viterbi_lattice(obs: &Vec<Vec<i128>>, trans: &Vec<Vec<Vec<Option<i128>>>>) -> (r: Option<ViterbiState>)
    requires
        lattice_shaped(obs@, trans@),
        lattice_bounded(obs@, trans@),
    ensures
        r is None <==> obs@.len() == 0 || obs@[0]@.len() == 0,
        r matches Some(s) ==> state_of_lattice(s, obs@, trans@),
{
    let n = obs.len();
    if n == 0 {
        return None;
    }
    if obs[0].len() == 0 {
        return None;
    }
    let mut vp: Vec<Vec<Option<i128>>> = Vec::new();
    let mut bp: Vec<Vec<usize>> = Vec::new();
    let (v0, b0) = fresh_layer(&obs[0]);
    vp.push(v0);
    bp.push(b0);
    let mut t: usize = 1;
    while t < n
        invariant
            1 <= t <= n,
            n == obs@.len(),
            lattice_shaped(obs@, trans@),
            lattice_bounded(obs@, trans@),
            vp@.len() == t,
            bp@.len() == t,
            forall|s: int|
                #![trigger vp@[s]]
                0 <= s < t ==> scores_int(vp@[s]@) == layer(obs@, trans@, s as nat).0 && indices_int(bp@[s]@)
                    == layer(obs@, trans@, s as nat).1,
        decreases n - t,
    {
        if obs[t].len() == 0 {
            vp.push(Vec::new());
            bp.push(Vec::new());
            assert(scores_int(vp@[t as int]@) =~= layer(obs@, trans@, t as nat).0);
            assert(indices_int(bp@[t as int]@) =~= layer(obs@, trans@, t as nat).1);
        } else if obs[t - 1].len() == 0 {
            let (v, b) = fresh_layer(&obs[t]);
            vp.push(v);
            bp.push(b);
            assert(layer(obs@, trans@, t as nat) == fresh_layer_spec(obs@[t as int]@));
        } else {
            let ghost c = (2 * (t - 1) + 1) * term_bound();
            proof {
                lemma_layer(obs@, trans@, (t - 1) as nat);
                assert(t <= max_steps());
                assert(c <= 0x8000000000000000000000000000000) by (nonlinear_arith)
                    requires
                        c == (2 * (t - 1) + 1) * 0x40000000000000000000000,
                        1 <= t <= 0x100000000,
                ;
                let sv = scores_int(vp@[t - 1]@);
                assert(sv.len() == vp@[t - 1]@.len());
                assert forall|i: int| 0 <= i < vp@[t - 1]@.len() && (#[trigger] vp@[t - 1]@[i]) is Some implies -c
                    <= vp@[t - 1]@[i]->0 <= c by {
                    assert(sv[i] == opt_int(vp@[t - 1]@[i]));
                }
                assert(trans@[t as int]@.len() == obs@[t - 1]@.len());
                assert forall|i: int, j: int|
                    0 <= i < trans@[t as int]@.len() && 0 <= j < trans@[t as int]@[i]@.len() && (
                    #[trigger] trans@[t as int]@[i]@[j]) is Some implies -term_bound() <= trans@[t as int]@[i]@[j]->0
                    <= term_bound() by {}
                assert forall|j: int| 0 <= j < obs@[t as int]@.len() implies -term_bound() <= #[trigger] obs@[t as int]@[j]
                    <= term_bound() by {}
            }
            let (v, b) = next_layer(&vp[t - 1], &trans[t], &obs[t], Ghost(c));
            vp.push(v);
            bp.push(b);
            assert(scores_int(vp@[t as int]@) == layer(obs@, trans@, t as nat).0);
            assert(indices_int(bp@[t as int]@) == layer(obs@, trans@, t as nat).1);
        }
        assert(scores_int(vp@[t as int]@) == layer(obs@, trans@, t as nat).0);
        assert(indices_int(bp@[t as int]@) == layer(obs@, trans@, t as nat).1);
        t += 1;
    }
    Some(ViterbiState { viterbi_prob: vp, backpointer: bp })
}

/// Backpointers index into the step before, and each step has as many
/// backpointers as scores.
pub open spec fn backpointers_valid(s: ViterbiState) -> bool {
    &&& s.backpointer.len() == s.viterbi_prob.len()
    &&& forall|t: int|
        #![trigger s.backpointer[t]]
        0 <= t < s.backpointer.len() ==> s.backpointer[t]@.len() == s.viterbi_prob[t]@.len()
    &&& forall|t: int, j: int|
        1 <= t < s.backpointer.len() && 0 <= j < s.backpointer[t]@.len() ==> (#[trigger] s.backpointer[t]@[j])
            < s.backpointer[t - 1]@.len() || s.backpointer[t - 1]@.len() == 0
}

/// Candidate index at step `t` when the trace back from `last` at step `n - 1`
/// follows the backpointers, taking index 0 across a step that has none.
pub open spec fn trace(bp: Seq<Vec<usize>>, last: int, n: nat, t: nat) -> int
    decreases n - t,
{
    if t + 1 >= n {
        last
    } else {
        let next = trace(bp, last, n, t + 1);
        if bp[t + 1 as int]@.len() == 0 {
            0
        } else {
            bp[t + 1 as int]@[next] as int
        }
    }
}

/// The path a backward pass yields: empty when the last step has no score.
pub open spec fn backward_spec(s: ViterbiState) -> Seq<int> {
    let n = s.viterbi_prob@.len();
    if n == 0 || s.viterbi_prob@[n - 1]@.len() == 0 {
        Seq::empty()
    } else {
        let last = s.viterbi_prob@[n - 1]@;
        let best = arg_best(scores_int(last), last.len()).0;
        Seq::new(n, |t: int| trace(s.backpointer@, best, n, t as nat))
    }
}

pub proof fn lemma_arg_best(v: Seq<Option<int>>, k: nat)
    requires
        k <= v.len(),
    ensures
        k > 0 ==> 0 <= arg_best(v, k).0 < k,
        k == 0 ==> arg_best(v, k).0 == 0,
        k > 0 ==> arg_best(v, k).1 == v[arg_best(v, k).0],
    decreases k,
{
    if k > 0 {
        lemma_arg_best(v, (k - 1) as nat);
    }
}

/// Index of the first best score.
fn best_index(v: &Vec<Option<i128>>) -> (r: usize)
    ensures
        r as int == arg_best(scores_int(v@), v@.len()).0,
{
    let ghost sv = scores_int(v@);
    let mut best: usize = 0;
    let mut max: Option<i128> = None;
    let mut i: usize = 0;
    while i < v.len()
        invariant
            i <= v@.len(),
            sv == scores_int(v@),
            best as int == arg_best(sv, i as nat).0,
            opt_int(max) == arg_best(sv, i as nat).1,
        decreases v@.len() - i,
    {
        let a = v[i];
        let better = match (a, max) {
            (Some(x), Some(y)) => x > y,
            (Some(_), None) => true,
            _ => false,
        };
        assert(sv[i as int] == opt_int(a));
        if better {
            best = i;
            max = a;
        }
        i += 1;
    }
    best
}

/// Backward pass: the most probable candidate at the last step, then the
/// backpointers followed to the first step.
pub fn viterbi_backward(state: &ViterbiState) -> (r: Vec<usize>)
    requires
        backpointers_valid(*state),
    ensures
        indices_int(r@) == backward_spec(*state),
{
    let n = state.viterbi_prob.len();
    if n == 0 {
        return Vec::new();
    }
    if state.viterbi_prob[n - 1].len() == 0 {
        return Vec::new();
    }
    let best_last = best_index(&state.viterbi_prob[n - 1]);
    let ghost bp = state.backpointer@;
    let ghost last = state.viterbi_prob@[n - 1]@;
    proof {
        lemma_arg_best(scores_int(last), last.len());
    }
    let mut path: Vec<usize> = Vec::new();
    let mut k: usize = 0;
    while k < n
        invariant
            k <= n,
            path@.len() == k,
        decreases n - k,
    {
        path.push(0);
        k += 1;
    }
    path.set(n - 1, best_last);
    let mut t: usize = n - 1;
    while t > 0
        invariant
            t < n,
            n == state.viterbi_prob@.len(),
            bp == state.backpointer@,
            backpointers_valid(*state),
            best_last as int == arg_best(scores_int(last), last.len()).0,
            path@.len() == n,
            forall|s: int| t <= s < n ==> #[trigger] path@[s] as int == trace(bp, best_last as int, n as nat, s as nat),
            bp[t as int]@.len() > 0 ==> path@[t as int] < bp[t as int]@.len(),
        decreases t,
    {
        let cur = path[t];
        if state.backpointer[t].len() == 0 {
            path.set(t - 1, 0);
        } else {
            let p = state.backpointer[t][cur];
            path.set(t - 1, p);
        }
        t -= 1;
    }
    assert(indices_int(path@) =~= backward_spec(*state));
    path
}


/// Score of path `p` over steps `0..=t`: its observation scores plus the
/// transition scores between consecutive steps.
pub open spec fn path_score(obs: Seq<Vec<i128>>, trans: Seq<Vec<Vec<Option<i128>>>>, p: Seq<int>, t: nat) -> Option<int>
    decreases t,
{
    if t == 0 {
        Some(obs[0]@[p[0]] as int)
    } else {
        add_log(
            add_log(path_score(obs, trans, p, (t - 1) as nat), opt_int(trans[t as int]@[p[t - 1]]@[p[t as int]])),
            Some(obs[t as int]@[p[t as int]] as int),
        )
    }
}

proof fn lemma_best_pred_attained(prev: Seq<Option<int>>, tm: Seq<Vec<Option<i128>>>, j: int, k: nat)
    requires
        0 < k,
    ensures
        best_pred(prev, tm, j, k).1 == add_log(
            prev[best_pred(prev, tm, j, k).0],
            opt_int(tm[best_pred(prev, tm, j, k).0]@[j]),
        ),
    decreases k,
{
    if k > 1 {
        lemma_best_pred_attained(prev, tm, j, (k - 1) as nat);
    } else {
        assert(best_pred(prev, tm, j, 0) == (0int, None::<int>));
    }
}

proof fn lemma_layer_path(obs: Seq<Vec<i128>>, trans: Seq<Vec<Vec<Option<i128>>>>, p: Seq<int>, t: nat)
    requires
        lattice_shaped(obs, trans),
        lattice_bounded(obs, trans),
        t < obs.len(),
        t < p.len(),
        forall|s: int| 0 <= s <= t ==> (#[trigger] obs[s])@.len() > 0,
        forall|s: int| 0 <= s <= t ==> 0 <= #[trigger] p[s] < obs[s]@.len(),
        forall|s: nat| 1 <= s <= t ==> p[s - 1] == #[trigger] layer(obs, trans, s).1[p[s as int]],
    ensures
        layer(obs, trans, t).0[p[t as int]] == path_score(obs, trans, p, t),
    decreases t,
{
    if t > 0 {
        lemma_layer_path(obs, trans, p, (t - 1) as nat);
        lemma_layer(obs, trans, (t - 1) as nat);
        let prev = layer(obs, trans, (t - 1) as nat).0;
        let tm = trans[t as int]@;
        let _ = obs[t - 1];
        let _ = p[t as int];
        assert(p[t - 1] == layer(obs, trans, t).1[p[t as int]]);
        lemma_best_pred_attained(prev, tm, p[t as int], prev.len());
    }
}

proof fn lemma_trace_in_range(
    obs: Seq<Vec<i128>>,
    trans: Seq<Vec<Vec<Option<i128>>>>,
    s: ViterbiState,
    best: int,
    t: nat,
)
    requires
        lattice_shaped(obs, trans),
        lattice_bounded(obs, trans),
        state_of_lattice(s, obs, trans),
        t < obs.len(),
        forall|u: int| 0 <= u < obs.len() ==> (#[trigger] obs[u])@.len() > 0,
        0 <= best < obs[obs.len() - 1]@.len(),
    ensures
        0 <= trace(s.backpointer@, best, obs.len(), t) < obs[t as int]@.len(),
    decreases obs.len() - t,
{
    let n = obs.len();
    if t + 1 < n {
        lemma_trace_in_range(obs, trans, s, best, t + 1);
        let nx = trace(s.backpointer@, best, n, t + 1);
        let _ = s.viterbi_prob[t + 1 as int];
        let _ = obs[t as int];
        lemma_layer(obs, trans, t + 1);
        assert(s.backpointer@[t + 1 as int]@[nx] as int == layer(obs, trans, t + 1).1[nx]);
    }
}

/// On a lattice without dead steps, the final score of the path that the
/// backward pass returns is the sum of the observation scores along that path
/// and of the transition scores between its consecutive candidates.
pub proof fn lemma_final_score_is_path_score(obs: Seq<Vec<i128>>, trans: Seq<Vec<Vec<Option<i128>>>>, s: ViterbiState)
    requires
        lattice_shaped(obs, trans),
        lattice_bounded(obs, trans),
        state_of_lattice(s, obs, trans),
        obs.len() > 0,
        forall|t: int| 0 <= t < obs.len() ==> (#[trigger] obs[t])@.len() > 0,
    ensures
        backward_spec(s).len() == obs.len(),
        forall|t: int| 0 <= t < obs.len() ==> 0 <= #[trigger] backward_spec(s)[t] < obs[t]@.len(),
        s.viterbi_prob[obs.len() - 1]@.len() == obs[obs.len() - 1]@.len(),
        scores_int(s.viterbi_prob[obs.len() - 1]@)[backward_spec(s)[obs.len() - 1]] == path_score(
            obs,
            trans,
            backward_spec(s),
            (obs.len() - 1) as nat,
        ),
{
    let n = obs.len();
    let last = s.viterbi_prob@[n - 1]@;
    let _ = s.viterbi_prob[n - 1];
    lemma_layer(obs, trans, (n - 1) as nat);
    lemma_arg_best(scores_int(last), last.len());
    let best = arg_best(scores_int(last), last.len()).0;
    let p = backward_spec(s);
    assert forall|t: int| 0 <= t < n implies 0 <= #[trigger] p[t] < obs[t]@.len() && (t >= 1 ==> p[t - 1]
        == layer(obs, trans, t as nat).1[p[t]]) by {
        let _ = s.viterbi_prob[t];
        lemma_layer(obs, trans, t as nat);
        if t + 1 < n {
            let _ = s.viterbi_prob[t + 1];
            lemma_layer(obs, trans, (t + 1) as nat);
            let nx = trace(s.backpointer@, best, n, (t + 1) as nat);
            assert(p[t] == trace(s.backpointer@, best, n, t as nat));
            assert(p[t + 1] == nx);
            lemma_trace_in_range(obs, trans, s, best, (t + 1) as nat);
            assert(s.backpointer@[t + 1]@[nx] as int == layer(obs, trans, (t + 1) as nat).1[nx]);
        }
        lemma_trace_in_range(obs, trans, s, best, t as nat);
        if t >= 1 {
            let _ = s.viterbi_prob[t - 1];
            let _ = obs[t - 1];
            assert(p[t - 1] == trace(s.backpointer@, best, n, (t - 1) as nat));
            assert(s.backpointer@[t]@[p[t]] as int == layer(obs, trans, t as nat).1[p[t]]);
        }
    }
    lemma_layer_path(obs, trans, p, (n - 1) as nat);
}


/// The layers of a lattice satisfy what the backward pass needs.
pub proof fn lemma_lattice_backpointers_valid(obs: Seq<Vec<i128>>, trans: Seq<Vec<Vec<Option<i128>>>>, s: ViterbiState)
    requires
        lattice_shaped(obs, trans),
        lattice_bounded(obs, trans),
        state_of_lattice(s, obs, trans),
    ensures
        backpointers_valid(s),
{
    assert forall|t: int| 0 <= t < s.backpointer@.len() implies (#[trigger] s.backpointer[t])@.len()
        == s.viterbi_prob[t]@.len() by {
        let _ = s.viterbi_prob[t];
        lemma_layer(obs, trans, t as nat);
        assert(indices_int(s.backpointer[t]@).len() == s.backpointer[t]@.len());
        assert(scores_int(s.viterbi_prob[t]@).len() == s.viterbi_prob[t]@.len());
    }
    assert forall|t: int, j: int|
        1 <= t < s.backpointer@.len() && 0 <= j < s.backpointer[t]@.len() implies (#[trigger] s.backpointer[t]@[j])
        < s.backpointer[t - 1]@.len() || s.backpointer[t - 1]@.len() == 0 by {
        let _ = s.viterbi_prob[t];
        let _ = s.viterbi_prob[t - 1];
        lemma_layer(obs, trans, t as nat);
        lemma_layer(obs, trans, (t - 1) as nat);
        assert(indices_int(s.backpointer[t]@)[j] == s.backpointer[t]@[j] as int);
        assert(indices_int(s.backpointer[t - 1]@).len() == s.backpointer[t - 1]@.len());
    }
}

/// `a` is at least `b`, minus infinity below every number.
pub open spec fn no_less(a: Option<int>, b: Option<int>) -> bool {
    !exceeds(b, a)
}

proof fn lemma_best_pred_max(prev: Seq<Option<int>>, tm: Seq<Vec<Option<i128>>>, j: int, k: nat)
    ensures
        forall|i: int|
            0 <= i < k ==> no_less(best_pred(prev, tm, j, k).1, #[trigger] add_log(prev[i], opt_int(tm[i]@[j]))),
    decreases k,
{
    if k > 0 {
        lemma_best_pred_max(prev, tm, j, (k - 1) as nat);
    }
}

proof fn lemma_arg_best_max(v: Seq<Option<int>>, k: nat)
    ensures
        forall|i: int| 0 <= i < k ==> no_less(arg_best(v, k).1, #[trigger] v[i]),
    decreases k,
{
    if k > 0 {
        lemma_arg_best_max(v, (k - 1) as nat);
    }
}

proof fn lemma_layer_max(obs: Seq<Vec<i128>>, trans: Seq<Vec<Vec<Option<i128>>>>, q: Seq<int>, t: nat)
    requires
        lattice_shaped(obs, trans),
        lattice_bounded(obs, trans),
        t < obs.len(),
        t < q.len(),
        forall|s: int| 0 <= s <= t ==> (#[trigger] obs[s])@.len() > 0,
        forall|s: int| 0 <= s <= t ==> 0 <= #[trigger] q[s] < obs[s]@.len(),
    ensures
        no_less(layer(obs, trans, t).0[q[t as int]], path_score(obs, trans, q, t)),
    decreases t,
{
    if t > 0 {
        lemma_layer_max(obs, trans, q, (t - 1) as nat);
        lemma_layer(obs, trans, (t - 1) as nat);
        let prev = layer(obs, trans, (t - 1) as nat).0;
        let tm = trans[t as int]@;
        let _ = obs[t - 1];
        let _ = q[t - 1];
        let _ = q[t as int];
        lemma_best_pred_max(prev, tm, q[t as int], prev.len());
        let _ = add_log(prev[q[t - 1]], opt_int(tm[q[t - 1]]@[q[t as int]]));
    }
}

/// On a lattice without dead steps, no path scores more than the final score
/// of the path that the backward pass returns: it is a most probable path.
pub proof fn lemma_chosen_path_is_most_probable(
    obs: Seq<Vec<i128>>,
    trans: Seq<Vec<Vec<Option<i128>>>>,
    s: ViterbiState,
    q: Seq<int>,
)
    requires
        lattice_shaped(obs, trans),
        lattice_bounded(obs, trans),
        state_of_lattice(s, obs, trans),
        obs.len() > 0,
        forall|t: int| 0 <= t < obs.len() ==> (#[trigger] obs[t])@.len() > 0,
        q.len() == obs.len(),
        forall|t: int| 0 <= t < obs.len() ==> 0 <= #[trigger] q[t] < obs[t]@.len(),
    ensures
        no_less(
            scores_int(s.viterbi_prob[obs.len() - 1]@)[backward_spec(s)[obs.len() - 1]],
            path_score(obs, trans, q, (obs.len() - 1) as nat),
        ),
{
    let n = obs.len();
    let last = s.viterbi_prob@[n - 1]@;
    let _ = s.viterbi_prob[n - 1];
    lemma_layer(obs, trans, (n - 1) as nat);
    lemma_layer_max(obs, trans, q, (n - 1) as nat);
    let sv = scores_int(last);
    lemma_arg_best(sv, last.len());
    lemma_arg_best_max(sv, last.len());
    let best = arg_best(sv, last.len()).0;
    assert(backward_spec(s)[n - 1] == trace(s.backpointer@, best, n, (n - 1) as nat));
    let _ = sv[q[n - 1]];
}

proof fn lemma_best_pred_same(
    prev: Seq<Option<int>>,
    tm1: Seq<Vec<Option<i128>>>,
    tm2: Seq<Vec<Option<i128>>>,
    j: int,
    k: nat,
)
    requires
        forall|i: int| 0 <= i < k ==> (#[trigger] tm1[i])@[j] == tm2[i]@[j],
    ensures
        best_pred(prev, tm1, j, k) == best_pred(prev, tm2, j, k),
    decreases k,
{
    if k > 0 {
        lemma_best_pred_same(prev, tm1, tm2, j, (k - 1) as nat);
        let _ = tm1[k - 1];
    }
}

/// Two lattices with the same observation scores, and the same transition
/// scores wherever the passes read them, have the same layers.
pub proof fn lemma_layer_same(
    obs1: Seq<Vec<i128>>,
    trans1: Seq<Vec<Vec<Option<i128>>>>,
    obs2: Seq<Vec<i128>>,
    trans2: Seq<Vec<Vec<Option<i128>>>>,
    t: nat,
)
    requires
        lattice_shaped(obs1, trans1),
        lattice_bounded(obs1, trans1),
        t < obs1.len(),
        obs1.len() == obs2.len(),
        forall|s: int| 0 <= s < obs1.len() ==> (#[trigger] obs1[s])@ == obs2[s]@,
        forall|s: int, i: int, j: int|
            1 <= s < obs1.len() && 0 <= i < obs1[s - 1]@.len() && 0 <= j < obs1[s]@.len() ==> (
            #[trigger] trans1[s]@[i]@[j]) == trans2[s]@[i]@[j],
    ensures
        layer(obs1, trans1, t) == layer(obs2, trans2, t),
    decreases t,
{
    let _ = obs1[t as int];
    if t > 0 {
        lemma_layer_same(obs1, trans1, obs2, trans2, (t - 1) as nat);
        let _ = obs1[t - 1];
        let o = obs1[t as int]@;
        if o.len() > 0 && obs1[t - 1]@.len() > 0 {
            lemma_layer(obs1, trans1, (t - 1) as nat);
            let prev = layer(obs1, trans1, (t - 1) as nat).0;
            let tm1 = trans1[t as int]@;
            let tm2 = trans2[t as int]@;
            assert forall|j: int| 0 <= j < o.len() implies best_pred(prev, tm1, j, prev.len()) == best_pred(
                prev,
                tm2,
                j,
                prev.len(),
            ) by {
                assert forall|i: int| 0 <= i < prev.len() implies (#[trigger] tm1[i])@[j] == tm2[i]@[j] by {
                    assert(trans1[t as int]@[i]@[j] == trans2[t as int]@[i]@[j]);
                }
                lemma_best_pred_same(prev, tm1, tm2, j, prev.len());
            }
            assert(layer(obs1, trans1, t).0 =~= layer(obs2, trans2, t).0);
            assert(layer(obs1, trans1, t).1 =~= layer(obs2, trans2, t).1);
        }
    }
}

proof fn lemma_trace_bounded(s: ViterbiState, best: int, t: nat)
    requires
        backpointers_valid(s),
        t < s.backpointer@.len(),
        0 <= best,
        s.backpointer@[s.backpointer@.len() - 1]@.len() > 0 ==> best < s.backpointer@[s.backpointer@.len() - 1]@.len(),
    ensures
        0 <= trace(s.backpointer@, best, s.backpointer@.len(), t),
        s.backpointer@[t as int]@.len() > 0 ==> trace(s.backpointer@, best, s.backpointer@.len(), t)
            < s.backpointer@[t as int]@.len(),
    decreases s.backpointer@.len() - t,
{
    let n = s.backpointer@.len();
    if t + 1 < n {
        lemma_trace_bounded(s, best, t + 1);
        let nx = trace(s.backpointer@, best, n, t + 1);
        let _ = s.backpointer[t + 1 as int];
        let _ = s.backpointer[t as int];
        if s.backpointer@[t + 1 as int]@.len() > 0 {
            assert(s.backpointer[t + 1 as int]@[nx] < s.backpointer[t as int]@.len() || s.backpointer[t
                as int]@.len() == 0);
        }
    }
}

proof fn lemma_trace_same(s1: ViterbiState, s2: ViterbiState, best: int, t: nat)
    requires
        backpointers_valid(s1),
        backpointers_valid(s2),
        s1.backpointer@.len() == s2.backpointer@.len(),
        forall|u: int|
            0 <= u < s1.backpointer@.len() ==> indices_int((#[trigger] s1.backpointer@[u])@) == indices_int(
                s2.backpointer@[u]@,
            ),
        t < s1.backpointer@.len(),
        0 <= best,
        s1.backpointer@[s1.backpointer@.len() - 1]@.len() > 0 ==> best < s1.backpointer@[s1.backpointer@.len()
            - 1]@.len(),
    ensures
        trace(s1.backpointer@, best, s1.backpointer@.len(), t) == trace(s2.backpointer@, best, s2.backpointer@.len(), t),
    decreases s1.backpointer@.len() - t,
{
    let n = s1.backpointer@.len();
    if t + 1 < n {
        lemma_trace_same(s1, s2, best, t + 1);
        lemma_trace_bounded(s1, best, t + 1);
        let nx = trace(s1.backpointer@, best, n, t + 1);
        let b1 = s1.backpointer@[t + 1 as int]@;
        let b2 = s2.backpointer@[t + 1 as int]@;
        assert(indices_int(b1).len() == b1.len());
        assert(indices_int(b2).len() == b2.len());
        if b1.len() > 0 {
            assert(indices_int(b1)[nx] == b1[nx] as int);
            assert(indices_int(b2)[nx] == b2[nx] as int);
        }
    }
}

/// Two states with the same scores and backpointers give the same path.
pub proof fn lemma_backward_same(s1: ViterbiState, s2: ViterbiState)
    requires
        backpointers_valid(s1),
        backpointers_valid(s2),
        s1.viterbi_prob@.len() == s2.viterbi_prob@.len(),
        forall|t: int|
            0 <= t < s1.viterbi_prob@.len() ==> scores_int((#[trigger] s1.viterbi_prob@[t])@) == scores_int(
                s2.viterbi_prob@[t]@,
            ) && indices_int(s1.backpointer@[t]@) == indices_int(s2.backpointer@[t]@),
    ensures
        backward_spec(s1) == backward_spec(s2),
{
    let n = s1.viterbi_prob@.len();
    if n > 0 {
        let l1 = s1.viterbi_prob@[n - 1]@;
        let l2 = s2.viterbi_prob@[n - 1]@;
        assert(scores_int(l1).len() == l1.len());
        assert(scores_int(l2).len() == l2.len());
        if l1.len() > 0 {
            lemma_arg_best(scores_int(l1), l1.len());
            let best = arg_best(scores_int(l1), l1.len()).0;
            let _ = s1.backpointer[n - 1];
            assert forall|u: int| 0 <= u < n implies indices_int((#[trigger] s1.backpointer@[u])@) == indices_int(
                s2.backpointer@[u]@,
            ) by {
                let _ = s1.viterbi_prob@[u];
            }
            assert forall|t: int| 0 <= t < n implies #[trigger] trace(s1.backpointer@, best, n, t as nat) == trace(
                s2.backpointer@,
                best,
                n,
                t as nat,
            ) by {
                lemma_trace_same(s1, s2, best, t as nat);
            }
            assert(backward_spec(s1) =~= backward_spec(s2));
        }
    }
}

/// `obs` holds the observation scores of the candidates.
pub open spec fn scores_of(obs: Seq<Vec<i128>>, cands: Seq<Vec<CandidatePoint>>) -> bool {
    &&& obs.len() == cands.len()
    &&& forall|t: int|
        #![trigger obs[t]]
        0 <= t < obs.len() ==> obs[t]@.len() == cands[t]@.len() && forall|i: int|
            0 <= i < obs[t]@.len() ==> obs[t]@[i] == (#[trigger] cands[t]@[i]).observation_prob
}

/// `trans` holds, between every two consecutive steps that both have
/// candidates, transition scores of the network for observations `gaps[t]` apart.
pub open spec fn network_transitions(
    net: RoadNetwork,
    cands: Seq<Vec<CandidatePoint>>,
    gaps: Seq<u64>,
    p: MatchParams,
    trans: Seq<Vec<Vec<Option<i128>>>>,
) -> bool {
    &&& trans.len() == cands.len()
    &&& forall|t: int|
        #![trigger trans[t]]
        1 <= t < cands.len() && cands[t - 1]@.len() > 0 && cands[t]@.len() > 0 ==> {
            &&& trans[t]@.len() == cands[t - 1]@.len()
            &&& forall|i: int| 0 <= i < trans[t]@.len() ==> (#[trigger] trans[t]@[i])@.len() == cands[t]@.len()
            &&& forall|i: int, j: int|
                0 <= i < cands[t - 1]@.len() && 0 <= j < cands[t]@.len() ==> is_transition_entry(
                    net,
                    cands[t - 1]@[i],
                    cands[t]@[j],
                    gaps[t] as int,
                    p,
                    #[trigger] trans[t]@[i]@[j],
                )
        }
}

/// Every candidate lies on a segment of the network, with a score in range.
pub open spec fn candidates_valid(cands: Seq<Vec<CandidatePoint>>, net: RoadNetwork) -> bool {
    forall|t: int, i: int|
        0 <= t < cands.len() && 0 <= i < cands[t]@.len() ==> on_network(#[trigger] cands[t]@[i], net) && -term_bound()
            <= cands[t]@[i].observation_prob <= term_bound()
}

/// Forward pass over the candidates of a track, with transition scores from
/// the network; `gaps[t]` is the distance between observations `t - 1` and `t`.
pub fn viterbi_forward(
    candidates: &Vec<Vec<CandidatePoint>>,
    gaps: &Vec<u64>,
    road_network: &RoadNetwork,
    params: &MatchParams,
) -> (r: Option<ViterbiState>)
    requires
        road_network.wf(),
        params.wf(),
        gaps@.len() == candidates@.len(),
        candidates@.len() <= max_steps(),
        candidates_valid(candidates@, *road_network),
    ensures
        r is None <==> candidates@.len() == 0 || candidates@[0]@.len() == 0,
        r matches Some(s) ==> exists|obs: Seq<Vec<i128>>, trans: Seq<Vec<Vec<Option<i128>>>>|
            {
                &&& scores_of(obs, candidates@)
                &&& network_transitions(*road_network, candidates@, gaps@, *params, trans)
                &&& lattice_shaped(obs, trans)
                &&& lattice_bounded(obs, trans)
                &&& state_of_lattice(s, obs, trans)
            },
        r matches Some(s) ==> backpointers_valid(s),
{
    let n = candidates.len();
    let mut obs: Vec<Vec<i128>> = Vec::new();
    let mut trans: Vec<Vec<Vec<Option<i128>>>> = Vec::new();
    let mut t: usize = 0;
    while t < n
        invariant
            t <= n,
            n == candidates@.len(),
            n <= max_steps(),
            gaps@.len() == n,
            road_network.wf(),
            params.wf(),
            candidates_valid(candidates@, *road_network),
            obs@.len() == t,
            trans@.len() == t,
            forall|u: int|
                #![trigger obs@[u]]
                0 <= u < t ==> obs@[u]@.len() == candidates@[u]@.len() && forall|i: int|
                    0 <= i < obs@[u]@.len() ==> obs@[u]@[i] == (#[trigger] candidates@[u]@[i]).observation_prob,
            forall|u: int|
                #![trigger trans@[u]]
                1 <= u < t && candidates@[u - 1]@.len() > 0 && candidates@[u]@.len() > 0 ==> {
                    &&& trans@[u]@.len() == candidates@[u - 1]@.len()
                    &&& forall|i: int|
                        0 <= i < trans@[u]@.len() ==> (#[trigger] trans@[u]@[i])@.len() == candidates@[u]@.len()
                    &&& forall|i: int, j: int|
                        0 <= i < candidates@[u - 1]@.len() && 0 <= j < candidates@[u]@.len() ==> is_transition_entry(
                            *road_network,
                            candidates@[u - 1]@[i],
                            candidates@[u]@[j],
                            gaps@[u] as int,
                            *params,
                            #[trigger] trans@[u]@[i]@[j],
                        )
                },
            forall|u: int, i: int, j: int|
                0 <= u < t && 0 <= i < trans@[u]@.len() && 0 <= j < trans@[u]@[i]@.len() && (
                #[trigger] trans@[u]@[i]@[j]) is Some ==> -term_bound() <= trans@[u]@[i]@[j]->0 <= term_bound(),
        decreases n - t,
    {
        let mut o: Vec<i128> = Vec::new();
        let mut i: usize = 0;
        while i < candidates[t].len()
            invariant
                t < n,
                n == candidates@.len(),
                i <= candidates@[t as int]@.len(),
                o@.len() == i,
                forall|k: int| 0 <= k < i ==> o@[k] == (#[trigger] candidates@[t as int]@[k]).observation_prob,
            decreases candidates@[t as int]@.len() - i,
        {
            o.push(candidates[t][i].observation_prob);
            i += 1;
        }
        obs.push(o);
        if t > 0 && candidates[t - 1].len() > 0 && candidates[t].len() > 0 {
            proof {
                assert forall|i: int| 0 <= i < candidates@[t - 1]@.len() implies on_network(
                    #[trigger] candidates@[t - 1]@[i],
                    *road_network,
                ) by {}
                assert forall|j: int| 0 <= j < candidates@[t as int]@.len() implies on_network(
                    #[trigger] candidates@[t as int]@[j],
                    *road_network,
                ) by {}
            }
            let m = compute_transition_matrix(&candidates[t - 1], &candidates[t], gaps[t], road_network, params);
            trans.push(m);
        } else {
            trans.push(Vec::new());
        }
        t += 1;
    }
    proof {
        assert forall|u: int, j: int| 0 <= u < obs@.len() && 0 <= j < obs@[u]@.len() implies -term_bound()
            <= #[trigger] obs@[u]@[j] <= term_bound() by {
            assert(obs@[u]@[j] == candidates@[u]@[j].observation_prob);
        }
    }
    let r = viterbi_lattice(&obs, &trans);
    proof {
        if r is Some {
            lemma_lattice_backpointers_valid(obs@, trans@, r->0);
        }
    }
    r
}

} // verus!
