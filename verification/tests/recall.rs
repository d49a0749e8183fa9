//! Recall of the approximate index against brute force.

use rand::rngs::SmallRng;
use rand::{Rng, SeedableRng};
use vfs::ann::VFSANNIndex;
use vfs::vector::VFSVector;

fn bits(vals: &[f32]) -> Vec<u32> {
    vals.iter().map(|v| v.to_bits()).collect()
}

fn as_f32s(v: &VFSVector) -> Vec<f32> {
    v.dense_bits().unwrap().iter().map(|x| f32::from_bits(*x)).collect()
}

fn euclidean(a: &[f32], b: &[f32]) -> f32 {
    a.iter().zip(b.iter()).map(|(x, y)| (x - y) * (x - y)).sum::<f32>().sqrt()
}

fn euclid_kernel(a: &VFSVector, b: &VFSVector) -> u32 {
    euclidean(&as_f32s(a), &as_f32s(b)).to_bits()
}

#[test]
fn recall_floor_on_random_vectors() {
    // Uniformly random 16-dimensional vectors; approximate top-10
    // against exact top-10 must reach at least 0.9 recall.
    let n = 1000usize;
    let dim = 16usize;
    let k = 10usize;
    let queries = 5usize;
    let mut rng = SmallRng::seed_from_u64(2024);
    let mut stored: Vec<Vec<f32>> = Vec::new();
    let mut index = VFSANNIndex::new(euclid_kernel, Some(40));
    for id in 0..n {
        let vals: Vec<f32> = (0..dim).map(|_| rng.gen::<f32>()).collect();
        index.insert_one(VFSVector::from_vec(
            bits(&vals),
            (id + 1) as u64,
            "r",
            Vec::new(),
            String::new(),
        ));
        stored.push(vals);
    }

    let mut hits = 0usize;
    let mut total = 0usize;
    for _ in 0..queries {
        let q: Vec<f32> = (0..dim).map(|_| rng.gen::<f32>()).collect();
        // Exact top-k by brute force.
        let mut ranked: Vec<(usize, f32)> = stored
            .iter()
            .enumerate()
            .map(|(i, v)| (i, euclidean(&q, v)))
            .collect();
        ranked.sort_by(|a, b| a.1.partial_cmp(&b.1).unwrap());
        let exact: Vec<usize> = ranked[..k].iter().map(|(i, _)| *i).collect();

        let qv = VFSVector::from_vec(bits(&q), 0, "q", Vec::new(), String::new());
        let approx = index.query(&qv, k, 400);
        assert!(approx.len() <= k);
        for nb in &approx {
            if exact.contains(&nb.index) {
                hits += 1;
            }
        }
        total += k;
    }
    let recall = hits as f64 / total as f64;
    assert!(recall >= 0.9, "recall was {}", recall);
}
