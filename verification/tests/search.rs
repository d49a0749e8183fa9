//! Ranking and the approximate index.

use rand::rngs::SmallRng;
use rand::{Rng, SeedableRng};
use vfs::ann::{HasNeighbors, Neighbor, NeighborNodes, Node, Searcher, VFSANNIndex};
use vfs::rank::{Ranker, SearchType, DistanceMethod};
use vfs::storage_manager::{VFSManager, ResetOptions};
use vfs::vector::VFSVector;

fn bits(vals: &[f32]) -> Vec<u32> {
    vals.iter().map(|v| v.to_bits()).collect()
}

fn as_f32s(v: &VFSVector) -> Vec<f32> {
    match v.dense_bits() {
        Some(b) => b.iter().map(|x| f32::from_bits(*x)).collect(),
        None => {
            let (q, scale_bits) = v.quantized_bits().unwrap();
            let s = f32::from_bits(scale_bits);
            q.iter().map(|x| *x as f32 / s).collect()
        },
    }
}

fn euclidean(a: &[f32], b: &[f32]) -> f32 {
    a.iter().zip(b.iter()).map(|(x, y)| (x - y) * (x - y)).sum::<f32>().sqrt()
}

fn euclid_kernel(a: &VFSVector, b: &VFSVector) -> u32 {
    euclidean(&as_f32s(a), &as_f32s(b)).to_bits()
}

fn query_vector(vals: &[f32]) -> VFSVector {
    VFSVector::from_vec(bits(vals), 0, "Query", vec!["Query".to_string()], String::new())
}

#[test]
fn exact_search_ranks_closest_first() {
    let mut m = VFSManager::new("s1");
    m.register_vector_from_vec(bits(&[1.0, 2.0, 3.0, 4.0]), "a", Vec::new()).unwrap();
    m.register_vector_from_vec(bits(&[1.0, 2.0, 4.0, 4.0]), "b", Vec::new()).unwrap();
    m.register_vector_from_vec(bits(&[1.0, 2.0, 2.0, 4.0]), "c", Vec::new()).unwrap();

    let mut ranker = Ranker::new(
        SearchType::Exact,
        DistanceMethod::Euclidean,
        euclid_kernel,
        m,
    );
    let q = query_vector(&[1.1, 2.1, 2.1, 4.1]);
    let results = ranker.search(&q, 2, Some(2)).unwrap();
    assert_eq!(results.len(), 2);
    // The closest is "c" (id 3), at distance about 0.2.
    assert_eq!(results[0].0, 3);
    let d0 = f32::from_bits(results[0].1);
    assert!((d0 - 0.2).abs() < 1e-2, "distance was {}", d0);
    // The runner-up is one of the other two.
    assert!(results[1].0 == 1 || results[1].0 == 2);
    assert!(f32::from_bits(results[1].1) >= d0);
}

#[test]
fn exact_search_respects_limit_and_order() {
    let mut m = VFSManager::new("lim");
    for k in 0..20 {
        m.register_vector_from_vec(bits(&[k as f32]), "v", Vec::new()).unwrap();
    }
    let mut ranker = Ranker::new(
        SearchType::Exact,
        DistanceMethod::Euclidean,
        euclid_kernel,
        m,
    );
    let q = query_vector(&[7.2]);
    let results = ranker.search(&q, 6, Some(3)).unwrap();
    assert_eq!(results.len(), 3);
    // Ascending distances: 7.0, then 8.0 or 6.0, never farther.
    assert_eq!(results[0].0, 8); // the vector [7.0] got id 8
    let dists: Vec<f32> = results.iter().map(|r| f32::from_bits(r.1)).collect();
    assert!(dists[0] <= dists[1] && dists[1] <= dists[2]);
    assert!(dists[2] <= 1.21);
}

#[test]
fn search_on_empty_store_is_empty() {
    let m = VFSManager::new("empty");
    let mut ranker = Ranker::new(
        SearchType::Exact,
        DistanceMethod::Euclidean,
        euclid_kernel,
        m,
    );
    let q = query_vector(&[1.0]);
    assert!(ranker.search(&q, 4, Some(5)).unwrap().is_empty());
    let m2 = VFSManager::new("empty2");
    let mut approx = Ranker::new(
        SearchType::Approximate,
        DistanceMethod::Euclidean,
        euclid_kernel,
        m2,
    );
    assert!(approx.search(&q, 4, Some(5)).unwrap().is_empty());
}

#[test]
fn nodes_hand_out_their_neighbor_lists() {
    let base: NeighborNodes<40> = NeighborNodes { neighbors: vec![3, 1, 4] };
    assert_eq!(base.get_neighbors(), vec![3, 1, 4]);
    let upper: Node<16> = Node {
        zero_node: 7,
        next_node: 2,
        neighbors: NeighborNodes { neighbors: vec![0, 5] },
    };
    assert_eq!(upper.get_neighbors(), vec![0, 5]);
}

#[test]
fn searcher_starts_and_clears_empty() {
    let seed = vec![Neighbor { index: 0, distance: 0 }];
    let mut s = Searcher::new(seed);
    assert_eq!(s.candidates.len(), 1);
    s.clear();
    assert!(s.candidates.is_empty() && s.nearest.is_empty() && s.seen.is_empty());
}

#[test]
fn neighbor_caps_hold_after_insertions() {
    let mut rng = SmallRng::seed_from_u64(11);
    let mut index = VFSANNIndex::new(euclid_kernel, Some(40));
    for id in 1..=200u64 {
        let vals: Vec<f32> = (0..8).map(|_| rng.gen::<f32>() * 2.0 - 1.0).collect();
        index.insert_one(VFSVector::from_vec(bits(&vals), id, "n", Vec::new(), String::new()));
    }
    assert_eq!(index.len(), 200);
    for level in 0..index.layer_count() {
        for item in 0..index.layer_len(level) {
            let cap = if level == 0 { 40 } else { 16 };
            assert!(index.neighbor_count(level, item) <= cap);
        }
    }
}

#[test]
fn approximate_top_one_matches_exact_minimum() {
    // A hundred draws from a standard normal in four dimensions.
    let mut rng = SmallRng::seed_from_u64(4);
    let mut gauss = move || {
        let u1: f32 = rng.gen::<f32>().max(1e-7);
        let u2: f32 = rng.gen();
        (-2.0 * u1.ln()).sqrt() * (2.0 * std::f32::consts::PI * u2).cos()
    };
    let mut m = VFSManager::new("s4");
    let mut stored: Vec<Vec<f32>> = Vec::new();
    for _ in 0..100 {
        let vals: Vec<f32> = (0..4).map(|_| gauss()).collect();
        m.register_vector_from_vec(bits(&vals), "g", Vec::new()).unwrap();
        stored.push(vals);
    }
    m.flush_manual().unwrap();

    // The exact nearest to the centroid, by brute force.
    let centroid = [0.0f32; 4];
    let mut best_id = 0u64;
    let mut best = f32::INFINITY;
    for (k, vals) in stored.iter().enumerate() {
        let d = euclidean(&centroid, vals);
        if d < best {
            best = d;
            best_id = (k + 1) as u64;
        }
    }

    let mut ranker = Ranker::new(
        SearchType::Approximate,
        DistanceMethod::Euclidean,
        euclid_kernel,
        m,
    );
    let q = query_vector(&centroid);
    let results = ranker.search(&q, 10, Some(1)).unwrap();
    assert_eq!(results.len(), 1);
    assert_eq!(results[0].0, best_id);
    assert!((f32::from_bits(results[0].1) - best).abs() < 1e-5);
}

#[test]
fn approximate_search_returns_sorted_pairs() {
    let mut m = VFSManager::new("approx");
    for k in 0..30 {
        m.register_vector_from_vec(bits(&[k as f32, 1.0]), "v", Vec::new()).unwrap();
    }
    let mut ranker = Ranker::new(
        SearchType::Approximate,
        DistanceMethod::Euclidean,
        euclid_kernel,
        m,
    );
    let q = query_vector(&[12.2, 1.0]);
    let results = ranker.search(&q, 7, Some(5)).unwrap();
    assert_eq!(results.len(), 5);
    for w in results.windows(2) {
        assert!(f32::from_bits(w[0].1) <= f32::from_bits(w[1].1));
    }
    assert_eq!(results[0].0, 13); // the vector [12.0, 1.0]
}

#[test]
fn exact_search_scans_memtable_and_disk() {
    let mut m = VFSManager::new("both");
    m.register_vector_from_vec(bits(&[10.0]), "disk", Vec::new()).unwrap();
    m.flush_manual().unwrap();
    m.register_vector_from_vec(bits(&[20.0]), "mem", Vec::new()).unwrap();
    let mut ranker = Ranker::new(
        SearchType::Exact,
        DistanceMethod::Euclidean,
        euclid_kernel,
        m,
    );
    let q = query_vector(&[19.0]);
    let results = ranker.search(&q, 4, Some(2)).unwrap();
    assert_eq!(results.len(), 2);
    assert_eq!(results[0].0, 2);
    assert_eq!(results[1].0, 1);
}

#[test]
fn cursor_rewind_allows_second_search() {
    let mut m = VFSManager::new("rewind");
    for k in 0..4 {
        m.register_vector_from_vec(bits(&[k as f32]), "v", Vec::new()).unwrap();
    }
    let mut ranker = Ranker::new(
        SearchType::Exact,
        DistanceMethod::Euclidean,
        euclid_kernel,
        m,
    );
    let q = query_vector(&[0.4]);
    let first = ranker.search(&q, 2, Some(1)).unwrap();
    assert_eq!(first[0].0, 1);
    // The scan consumed the cursor; rewinding restores the full view.
    let mut m = ranker.into_manager();
    m.reset_state(ResetOptions::default()).unwrap();
    let mut ranker = Ranker::new(
        SearchType::Exact,
        DistanceMethod::Euclidean,
        euclid_kernel,
        m,
    );
    let second = ranker.search(&q, 2, Some(1)).unwrap();
    assert_eq!(second[0].0, 1);
}
