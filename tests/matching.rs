use roadmatch::candidate::{generate_candidates_for_point, generate_candidates_for_track, CandidatePoint, ProjectionPoint};
use roadmatch::matching::{
    keep_successes, map_match, map_match_batch, map_match_batch_successful, BatchMatchResult, MatchResult, ObservedTrack,
};
use roadmatch::network::{Edge, Node, RoadNetwork};
use roadmatch::transition::{compute_route_distance, compute_transition_matrix, compute_transition_prob};
use roadmatch::viterbi::{viterbi_backward, viterbi_lattice, MatchParams, ViterbiState};

fn node(id: &str) -> Node {
    Node { id: id.to_string(), name: String::new() }
}

fn edge(id: &str, from: &str, to: &str, length: u64) -> Edge {
    Edge {
        id: id.to_string(),
        name: String::new(),
        length,
        start_node_id: from.to_string(),
        end_node_id: to.to_string(),
    }
}

/// Corners in metres of each segment of the square, in the order of `square_edges`.
fn square_geometry() -> Vec<((f64, f64), (f64, f64))> {
    vec![
        ((0.0, 0.0), (100.0, 0.0)),
        ((100.0, 0.0), (100.0, 100.0)),
        ((100.0, 100.0), (0.0, 100.0)),
        ((0.0, 100.0), (0.0, 0.0)),
    ]
}

fn square_edges() -> Vec<Edge> {
    vec![
        edge("e1", "n1", "n2", 100_000),
        edge("e2", "n2", "n3", 100_000),
        edge("e3", "n3", "n4", 100_000),
        edge("e4", "n4", "n1", 100_000),
    ]
}

fn square_nodes() -> Vec<Node> {
    vec![node("n1"), node("n2"), node("n3"), node("n4")]
}

fn square() -> RoadNetwork {
    RoadNetwork::from_nodes_and_edges(square_nodes(), square_edges())
}

fn params(sigma_m: f64, beta_m: f64, radius_m: f64) -> MatchParams {
    let log_norm = -(sigma_m * (2.0 * std::f64::consts::PI).sqrt()).ln();
    MatchParams {
        gps_sigma: (sigma_m * 1000.0).round() as u64,
        log_norm: (log_norm * 1e6).round() as i64,
        beta: (beta_m * 1000.0).round() as u64,
        neg_log_beta: (-beta_m.ln() * 1e6).round() as i64,
        search_radius: (radius_m * 1000.0).round() as u64,
    }
}

/// Planar projection of `p` onto each segment whose box, grown by the
/// radius, holds `p`; distances in millimetres.
fn project(p: (f64, f64), geometry: &[((f64, f64), (f64, f64))], radius_m: f64) -> Vec<ProjectionPoint> {
    let mut out = Vec::new();
    for (k, &(a, b)) in geometry.iter().enumerate() {
        let (minx, maxx) = (a.0.min(b.0) - radius_m, a.0.max(b.0) + radius_m);
        let (miny, maxy) = (a.1.min(b.1) - radius_m, a.1.max(b.1) + radius_m);
        if p.0 < minx || p.0 > maxx || p.1 < miny || p.1 > maxy {
            continue;
        }
        let (dx, dy) = (b.0 - a.0, b.1 - a.1);
        let len2 = dx * dx + dy * dy;
        let t = if len2 < 1e-10 { 0.0 } else { (((p.0 - a.0) * dx + (p.1 - a.1) * dy) / len2).clamp(0.0, 1.0) };
        let foot = (a.0 + t * dx, a.1 + t * dy);
        let dist = ((p.0 - foot.0).powi(2) + (p.1 - foot.1).powi(2)).sqrt();
        let along = ((foot.0 - a.0).powi(2) + (foot.1 - a.1).powi(2)).sqrt();
        out.push(ProjectionPoint {
            edge: k,
            distance: (dist * 1000.0).round() as u64,
            distance_along_edge: (along * 1000.0).round() as u64,
        });
    }
    out
}

fn observe(points: &[(f64, f64)], geometry: &[((f64, f64), (f64, f64))], radius_m: f64) -> (Vec<Vec<ProjectionPoint>>, Vec<u64>) {
    let mut projections = Vec::new();
    let mut gaps = Vec::new();
    for (i, &p) in points.iter().enumerate() {
        projections.push(project(p, geometry, radius_m));
        if i == 0 {
            gaps.push(0);
        } else {
            let q = points[i - 1];
            gaps.push((((p.0 - q.0).powi(2) + (p.1 - q.1).powi(2)).sqrt() * 1000.0).round() as u64);
        }
    }
    (projections, gaps)
}

fn square_track() -> Vec<(f64, f64)> {
    vec![
        (5.0, 2.0),
        (25.0, -1.0),
        (50.0, 3.0),
        (75.0, -2.0),
        (95.0, 1.0),
        (102.0, 20.0),
        (98.0, 45.0),
        (101.0, 70.0),
        (99.0, 95.0),
    ]
}

fn matched_edges(m: &MatchResult) -> Vec<usize> {
    m.matched_points.iter().map(|c| c.projection.edge).collect()
}

fn same_result(a: &MatchResult, b: &MatchResult) -> bool {
    a.log_probability == b.log_probability
        && a.path_indices == b.path_indices
        && matched_edges(a) == matched_edges(b)
        && a.matched_points.iter().zip(b.matched_points.iter()).all(|(x, y)| {
            x.projection.distance == y.projection.distance
                && x.projection.distance_along_edge == y.projection.distance_along_edge
                && x.observation_prob == y.observation_prob
        })
}

#[test]
fn square_loop_turns_onto_second_segment() {
    let net = square();
    let p = params(10.0, 5.0, 50.0);
    let (projections, gaps) = observe(&square_track(), &square_geometry(), 50.0);
    let m = map_match(&projections, &gaps, &net, &p).expect("a match");
    assert_eq!(matched_edges(&m), vec![0, 0, 0, 0, 0, 1, 1, 1, 1]);
    let ids: Vec<&str> = m.matched_points.iter().map(|c| net.edges[c.projection.edge].id.as_str()).collect();
    assert_eq!(ids, vec!["e1", "e1", "e1", "e1", "e1", "e2", "e2", "e2", "e2"]);
    assert_eq!(m.path_indices.len(), 9);
    assert!(m.log_probability.is_some());
    // every matched foot lies on its segment
    for c in &m.matched_points {
        assert!(c.projection.distance_along_edge <= 100_000);
    }
}

#[test]
fn log_probability_is_sum_along_path() {
    let net = square();
    let p = params(10.0, 5.0, 50.0);
    let track = square_track();
    let (projections, gaps) = observe(&track, &square_geometry(), 50.0);
    let m = map_match(&projections, &gaps, &net, &p).expect("a match");
    let mut total: i128 = 0;
    for t in 0..m.matched_points.len() {
        let c = &m.matched_points[t];
        total += c.observation_prob;
        if t > 0 {
            let prev = &m.matched_points[t - 1];
            let route = prev.compute_distance_to(c, &net);
            total += compute_transition_prob(route, gaps[t], &p).expect("reachable");
        }
    }
    assert_eq!(m.log_probability, Some(total));
}

#[test]
fn empty_track_gives_no_result() {
    let net = square();
    let p = params(10.0, 5.0, 50.0);
    assert!(map_match(&Vec::new(), &Vec::new(), &net, &p).is_none());
}

#[test]
fn single_point_track_takes_best_candidate() {
    let net = square();
    let p = params(10.0, 5.0, 50.0);
    let (projections, gaps) = observe(&[(30.0, 4.0)], &square_geometry(), 50.0);
    let m = map_match(&projections, &gaps, &net, &p).expect("a match");
    assert_eq!(m.matched_points.len(), 1);
    let best = &m.matched_points[0];
    assert_eq!(best.projection.edge, 0);
    assert_eq!(best.projection.distance, 4_000);
    assert_eq!(best.projection.distance_along_edge, 30_000);
    assert_eq!(m.log_probability, Some(best.observation_prob));
    for c in &m.candidates[0] {
        assert!(c.observation_prob <= best.observation_prob);
    }
}

#[test]
fn far_first_observation_gives_no_result() {
    let net = square();
    let p = params(10.0, 5.0, 50.0);
    let mut track = vec![(500.0, 500.0)];
    track.extend(square_track());
    let (projections, gaps) = observe(&track, &square_geometry(), 50.0);
    assert!(map_match(&projections, &gaps, &net, &p).is_none());
}

#[test]
fn far_observation_has_no_candidate() {
    let p = params(10.0, 5.0, 50.0);
    let far = vec![
        ProjectionPoint { edge: 0, distance: 60_000, distance_along_edge: 0 },
        ProjectionPoint { edge: 1, distance: 50_001, distance_along_edge: 3 },
    ];
    assert!(generate_candidates_for_point(&far, &p).is_empty());
}

#[test]
fn dead_gap_restarts_the_chain() {
    let net = square();
    let p = params(10.0, 5.0, 50.0);
    let mut track = square_track();
    track.insert(5, (500.0, 500.0));
    let (projections, gaps) = observe(&track, &square_geometry(), 50.0);
    let m = map_match(&projections, &gaps, &net, &p).expect("a match");
    assert!(m.candidates[5].is_empty());
    assert_eq!(m.matched_points.len(), 9);
    assert_eq!(m.path_indices.len(), 9);
    assert_eq!(matched_edges(&m)[5..].to_vec(), vec![1, 1, 1, 1]);
    assert!(m.log_probability.is_some());
}

#[test]
fn unreachable_segment_does_not_fail() {
    let mut edges = square_edges();
    edges[1] = edge("e2", "n2-missing", "n3", 100_000);
    let net = RoadNetwork::from_nodes_and_edges(square_nodes(), edges);
    let connected = square();
    let p = params(10.0, 5.0, 50.0);
    let (projections, gaps) = observe(&square_track(), &square_geometry(), 50.0);
    let full = map_match(&projections, &gaps, &connected, &p).expect("a match");
    // the dropped segment is no candidate
    let kept: Vec<Vec<ProjectionPoint>> =
        projections.iter().map(|step| step.iter().copied().filter(|q| net.ends[q.edge].is_some()).collect()).collect();
    let m = map_match(&kept, &gaps, &net, &p).expect("a match");
    assert!(m.matched_points.iter().all(|c| c.projection.edge != 1));
    assert_eq!(m.matched_points.len(), 9);
    assert!(m.log_probability.unwrap_or(i128::MIN) < full.log_probability.unwrap());
}

#[test]
fn clearing_the_cache_keeps_results() {
    let net = square();
    let p = params(10.0, 5.0, 50.0);
    let (projections, gaps) = observe(&square_track(), &square_geometry(), 50.0);
    let first = map_match(&projections, &gaps, &net, &p).expect("a match");
    net.clear_cache();
    assert_eq!(net.cache_stats.counts(), (0, 0));
    let second = map_match(&projections, &gaps, &net, &p).expect("a match");
    assert!(same_result(&first, &second));
}

#[test]
fn degenerate_segment_is_accepted() {
    let mut nodes = square_nodes();
    nodes.push(node("n5"));
    let mut edges = square_edges();
    edges.push(edge("e5", "n1", "n5", 0));
    let net = RoadNetwork::from_nodes_and_edges(nodes, edges);
    let mut geometry = square_geometry();
    geometry.push(((0.0, 0.0), (0.0, 0.0)));
    let p = params(10.0, 5.0, 50.0);
    let (projections, gaps) = observe(&[(1.0, 1.0), (10.0, 1.0)], &geometry, 50.0);
    assert!(projections[0].iter().any(|q| q.edge == 4));
    let m = map_match(&projections, &gaps, &net, &p).expect("a match");
    assert_eq!(m.matched_points.len(), 2);
}

#[test]
fn parallel_batch_matches_sequential_in_order() {
    let net = square();
    let p = params(10.0, 5.0, 50.0);
    let (projections, gaps) = observe(&square_track(), &square_geometry(), 50.0);
    let sequential = map_match(&projections, &gaps, &net, &p).expect("a match");
    let tracks: Vec<ObservedTrack> = (0..100)
        .map(|i| ObservedTrack { id: format!("track_{:03}", i), projections: projections.clone(), gaps: gaps.clone() })
        .collect();
    let batch = map_match_batch(&tracks, &net, &p);
    assert_eq!(batch.len(), 100);
    for (i, b) in batch.iter().enumerate() {
        assert_eq!(b.track_id, format!("track_{:03}", i));
        assert!(same_result(b.result.as_ref().unwrap(), &sequential));
    }
    let (hits, misses) = net.cache_stats.counts();
    assert!(hits as f64 / (hits + misses) as f64 >= 0.95);
}

#[test]
fn keep_successes_drops_failures_in_order() {
    let net = square();
    let p = params(10.0, 5.0, 50.0);
    let (projections, gaps) = observe(&square_track(), &square_geometry(), 50.0);
    let batch = vec![
        BatchMatchResult { track_id: "a".to_string(), result: map_match(&projections, &gaps, &net, &p) },
        BatchMatchResult { track_id: "b".to_string(), result: None },
        BatchMatchResult { track_id: "c".to_string(), result: map_match(&projections, &gaps, &net, &p) },
    ];
    let kept = keep_successes(batch);
    let ids: Vec<&str> = kept.iter().map(|(id, _)| id.as_str()).collect();
    assert_eq!(ids, vec!["a", "c"]);
}

#[test]
fn observation_prob_exact_values() {
    let p = params(10.0, 5.0, 50.0);
    assert_eq!(CandidatePoint::compute_observation_prob(0, &p), p.log_norm as i128);
    // one sigma away: d^2 / (2 sigma^2) = 1/2 nat
    assert_eq!(CandidatePoint::compute_observation_prob(10_000, &p), p.log_norm as i128 - 500_000);
    // 3 mm with sigma 10 m: 9e6 / 2e8 micro-nats, rounded down to 0
    assert_eq!(CandidatePoint::compute_observation_prob(3, &p), p.log_norm as i128);
    assert_eq!(CandidatePoint::compute_observation_prob(30_000, &p), p.log_norm as i128 - 4_500_000);
}

#[test]
fn transition_prob_exact_values() {
    let p = params(10.0, 5.0, 50.0);
    assert_eq!(compute_transition_prob(Some(1_000), 0, &p), Some(p.neg_log_beta as i128 - 200_000));
    assert_eq!(compute_transition_prob(Some(0), 1_000, &p), Some(p.neg_log_beta as i128 - 200_000));
    assert_eq!(compute_transition_prob(Some(7), 7, &p), Some(p.neg_log_beta as i128));
    assert_eq!(compute_transition_prob(None, 7, &p), None);
}

#[test]
fn default_params() {
    let p = MatchParams::default();
    assert_eq!((p.gps_sigma, p.beta, p.search_radius), (50_000, 5_000, 100_000));
    assert_eq!((p.log_norm, p.neg_log_beta), (-4_830_962, -1_609_438));
}

#[test]
fn route_distance_same_and_other_segment() {
    let net = square();
    let p = params(10.0, 5.0, 50.0);
    let a = CandidatePoint::from_projection(ProjectionPoint { edge: 0, distance: 0, distance_along_edge: 70_000 }, &p);
    let b = CandidatePoint::from_projection(ProjectionPoint { edge: 0, distance: 0, distance_along_edge: 20_000 }, &p);
    let c = CandidatePoint::from_projection(ProjectionPoint { edge: 2, distance: 0, distance_along_edge: 5_000 }, &p);
    assert_eq!(a.compute_distance_to(&b, &net), Some(50_000));
    assert_eq!(b.compute_distance_to(&a, &net), Some(50_000));
    // rest of e1 (30 m), e2 (100 m), then 5 m into e3
    assert_eq!(a.compute_distance_to(&c, &net), Some(135_000));
    // e3 back to e1: e4 only
    assert_eq!(c.compute_distance_to(&a, &net), Some(95_000 + 100_000 + 70_000));
}

#[test]
fn shortest_paths_between_segments() {
    let net = square();
    let d = net.compute_shortest_path_internal(0, 2);
    assert_eq!((d.path_distance, d.from_edge_length), (Some(100_000), 100_000));
    let d = net.compute_shortest_path_internal(0, 1);
    assert_eq!((d.path_distance, d.from_edge_length), (Some(0), 100_000));
    let d = net.compute_shortest_path_internal(1, 0);
    assert_eq!((d.path_distance, d.from_edge_length), (Some(200_000), 100_000));
    let d = net.compute_edge_shortest_path(3, 3);
    assert_eq!((d.path_distance, d.from_edge_length), (Some(0), 0));
    let d = net.compute_edge_shortest_path(0, 1);
    assert_eq!((d.path_distance, d.from_edge_length), (Some(0), 100_000));
    let d = net.compute_edge_shortest_path(1, 0);
    assert_eq!((d.path_distance, d.from_edge_length), (Some(200_000), 100_000));
    net.clear_cache();
    let first = net.compute_edge_shortest_path(0, 2);
    let again = net.compute_edge_shortest_path(0, 2);
    assert_eq!(first.path_distance, Some(100_000));
    assert_eq!(again.path_distance, Some(100_000));
    assert_eq!(net.cache_stats.counts(), (1, 1));
}

#[test]
fn unreachable_and_dangling_segments() {
    let nodes = vec![node("a"), node("b"), node("c"), node("d")];
    let edges = vec![edge("ab", "a", "b", 10), edge("cd", "c", "d", 10), edge("bx", "b", "x", 10)];
    let net = RoadNetwork::from_nodes_and_edges(nodes, edges);
    assert_eq!(net.ends, vec![Some((0, 1)), Some((2, 3)), None]);
    let d = net.compute_shortest_path_internal(0, 1);
    assert_eq!((d.path_distance, d.from_edge_length), (None, 10));
    // the second segment was dropped; the first is known, so its length stands
    let d = net.compute_shortest_path_internal(0, 2);
    assert_eq!((d.path_distance, d.from_edge_length), (None, 10));
    let d = net.compute_edge_shortest_path(0, 2);
    assert_eq!((d.path_distance, d.from_edge_length), (None, 10));
    let d = net.compute_shortest_path_internal(2, 0);
    assert_eq!((d.path_distance, d.from_edge_length), (None, 0));
}

#[test]
fn edges_and_nodes_by_id_take_the_last() {
    let nodes = vec![node("a"), node("b"), node("a")];
    let edges = vec![edge("x", "a", "b", 5), edge("y", "b", "a", 6), edge("x", "b", "b", 7), edge("z", "q", "a", 8)];
    let net = RoadNetwork::from_nodes_and_edges(nodes, edges);
    assert_eq!(net.ends, vec![Some((2, 1)), Some((1, 2)), Some((1, 1)), None]);
    assert_eq!(net.find_edge("x"), Some(2));
    assert_eq!(net.get_edge("x").map(|e| e.length), Some(7));
    assert_eq!(net.find_edge("z"), None);
    assert!(net.get_edge("nope").is_none());
}

#[test]
fn empty_network() {
    let net = RoadNetwork::new();
    assert!(net.edges.is_empty());
    assert_eq!(net.cache_size(), 0);
    let small = RoadNetwork::with_cache_size(3);
    assert!(small.nodes.is_empty());
}

#[test]
fn lattice_tie_and_dead_step() {
    // step 0: two equal candidates; step 1: dead; step 2: restart; step 3: one candidate
    let obs = vec![vec![-5, -5], vec![], vec![-1, -3], vec![-2]];
    let trans = vec![vec![], vec![], vec![], vec![vec![Some(-10)], vec![Some(-1)]]];
    let s = viterbi_lattice(&obs, &trans).expect("a state");
    assert_eq!(s.viterbi_prob[0], vec![Some(-5), Some(-5)]);
    assert!(s.viterbi_prob[1].is_empty());
    assert_eq!(s.viterbi_prob[2], vec![Some(-1), Some(-3)]);
    assert_eq!(s.backpointer[2], vec![0, 0]);
    // -1 - 10 = -11 against -3 - 1 = -4: the second wins
    assert_eq!(s.viterbi_prob[3], vec![Some(-6)]);
    assert_eq!(s.backpointer[3], vec![1]);
    assert_eq!(viterbi_backward(&s), vec![0, 0, 1, 0]);
}

#[test]
fn lattice_unreachable_everywhere() {
    let obs = vec![vec![-1, -2], vec![-3]];
    let trans = vec![vec![], vec![vec![None], vec![None]]];
    let s = viterbi_lattice(&obs, &trans).expect("a state");
    assert_eq!(s.viterbi_prob[1], vec![None]);
    assert_eq!(s.backpointer[1], vec![0]);
    assert!(viterbi_lattice(&vec![vec![]], &vec![vec![]]).is_none());
    assert!(viterbi_lattice(&vec![], &vec![]).is_none());
}

#[test]
fn backward_on_empty_last_step() {
    let s = ViterbiState { viterbi_prob: vec![vec![Some(1)], vec![]], backpointer: vec![vec![0], vec![]] };
    assert!(viterbi_backward(&s).is_empty());
}

#[test]
fn dead_last_step_gives_empty_result() {
    let net = square();
    let p = params(10.0, 5.0, 50.0);
    let (projections, gaps) = observe(&[(10.0, 1.0), (20.0, 1.0), (500.0, 500.0)], &square_geometry(), 50.0);
    let m = map_match(&projections, &gaps, &net, &p).expect("a result");
    assert!(m.matched_points.is_empty());
    assert!(m.path_indices.is_empty());
    assert_eq!(m.log_probability, None);
    assert_eq!(m.candidates.len(), 3);
}

#[test]
fn viterbi_path_beats_every_path() {
    let obs: Vec<Vec<i128>> = vec![vec![-3, -1, -4], vec![-1, -5], vec![-9, -2, -6]];
    let trans: Vec<Vec<Vec<Option<i128>>>> = vec![
        vec![],
        vec![vec![Some(-2), Some(-1)], vec![Some(-7), None], vec![Some(0), Some(-3)]],
        vec![vec![Some(-1), Some(-8), Some(-2)], vec![None, Some(-1), Some(-1)]],
    ];
    let s = viterbi_lattice(&obs, &trans).expect("a state");
    let path = viterbi_backward(&s);
    let score = |p: &[usize]| -> Option<i128> {
        let mut total = obs[0][p[0]];
        for t in 1..p.len() {
            total += trans[t][p[t - 1]][p[t]]? + obs[t][p[t]];
        }
        Some(total)
    };
    let best = s.viterbi_prob[2][path[2]];
    assert_eq!(best, score(&path));
    for a in 0..3 {
        for b in 0..2 {
            for c in 0..3 {
                if let Some(v) = score(&[a, b, c]) {
                    assert!(v <= best.unwrap());
                }
            }
        }
    }
    assert_eq!(path, vec![0, 1, 1]);
    assert_eq!(best, Some(-12));
}

#[test]
fn candidates_keep_order_and_radius() {
    let p = params(10.0, 5.0, 50.0);
    let step = vec![
        ProjectionPoint { edge: 2, distance: 10_000, distance_along_edge: 1 },
        ProjectionPoint { edge: 0, distance: 50_001, distance_along_edge: 2 },
        ProjectionPoint { edge: 1, distance: 50_000, distance_along_edge: 3 },
    ];
    let cands = generate_candidates_for_track(&vec![step.clone(), vec![]], &p);
    assert_eq!(cands.len(), 2);
    assert!(cands[1].is_empty());
    let edges: Vec<usize> = cands[0].iter().map(|c| c.edge_id()).collect();
    assert_eq!(edges, vec![2, 1]);
    assert_eq!(cands[0][0].observation_prob, p.log_norm as i128 - 500_000);
    assert_eq!(cands[0][1].observation_prob, p.log_norm as i128 - 12_500_000);
    assert_eq!(cands[0][1].distance_along_edge(), 3);
    assert_eq!(cands[0][1].distance(), 50_000);
}

#[test]
fn transition_matrix_entries() {
    let net = square();
    let p = params(10.0, 5.0, 50.0);
    let at = |edge: usize, along: u64| {
        CandidatePoint::from_projection(ProjectionPoint { edge, distance: 0, distance_along_edge: along }, &p)
    };
    let prev = vec![at(0, 90_000), at(3, 50_000)];
    let curr = vec![at(0, 95_000), at(1, 5_000)];
    let m = compute_transition_matrix(&prev, &curr, 5_000, &net, &p);
    let b = p.neg_log_beta as i128;
    // same segment: 5 m against 5 m; next segment: 10 m + 5 m against 5 m
    assert_eq!(m[0], vec![Some(b), Some(b - 2_000_000)]);
    // from e4 at 50 m: to e1 at 95 m is 50 + 95 = 145 m; to e2 at 5 m is 50 + 100 + 5 = 155 m
    assert_eq!(m[1], vec![Some(b - 28_000_000), Some(b - 30_000_000)]);
    assert_eq!(compute_route_distance(&prev[1], &curr[1], &net), Some(155_000));
}

#[test]
fn batch_successes_only() {
    let net = square();
    let p = params(10.0, 5.0, 50.0);
    let (projections, gaps) = observe(&square_track(), &square_geometry(), 50.0);
    let tracks = vec![
        ObservedTrack { id: "good".to_string(), projections: projections.clone(), gaps: gaps.clone() },
        ObservedTrack { id: "empty".to_string(), projections: vec![], gaps: vec![] },
        ObservedTrack { id: "also".to_string(), projections, gaps },
    ];
    let kept = map_match_batch_successful(&tracks, &net, &p);
    let ids: Vec<&str> = kept.iter().map(|(id, _)| id.as_str()).collect();
    assert_eq!(ids, vec!["good", "also"]);
    assert_eq!(matched_edges(&kept[1].1), vec![0, 0, 0, 0, 0, 1, 1, 1, 1]);
}
