//! Distance kernels and quantization, as the engine's callers define
//! them over the stored bit patterns.

use rand::rngs::SmallRng;
use rand::{Rng, SeedableRng};

fn euclidean_scalar(a: &[f32], b: &[f32]) -> f32 {
    a.iter().zip(b.iter()).map(|(x, y)| (x - y) * (x - y)).sum::<f32>().sqrt()
}

fn cosine_scalar(a: &[f32], b: &[f32]) -> f32 {
    let dot: f32 = a.iter().zip(b.iter()).map(|(x, y)| x * y).sum();
    let na: f32 = a.iter().map(|x| x * x).sum::<f32>().sqrt();
    let nb: f32 = b.iter().map(|x| x * x).sum::<f32>().sqrt();
    1.0 - dot / (na * nb)
}

/// Pairwise tree reduction, as a lane-parallel kernel accumulates.
fn tree_sum(xs: &[f32]) -> f32 {
    match xs.len() {
        0 => 0.0,
        1 => xs[0],
        n => tree_sum(&xs[..n / 2]) + tree_sum(&xs[n / 2..]),
    }
}

fn euclidean_lanes(a: &[f32], b: &[f32]) -> f32 {
    assert!(matches!(a.len(), 2 | 4 | 8 | 16 | 32 | 64), "unsupported lane width");
    let sq: Vec<f32> = a.iter().zip(b.iter()).map(|(x, y)| (x - y) * (x - y)).collect();
    tree_sum(&sq).sqrt()
}

fn cosine_lanes(a: &[f32], b: &[f32]) -> f32 {
    assert!(matches!(a.len(), 2 | 4 | 8 | 16 | 32 | 64), "unsupported lane width");
    let prod: Vec<f32> = a.iter().zip(b.iter()).map(|(x, y)| x * y).collect();
    let sa: Vec<f32> = a.iter().map(|x| x * x).collect();
    let sb: Vec<f32> = b.iter().map(|x| x * x).collect();
    1.0 - tree_sum(&prod) / (tree_sum(&sa).sqrt() * tree_sum(&sb).sqrt())
}

#[test]
fn scalar_and_lane_kernels_agree() {
    let mut rng = SmallRng::seed_from_u64(99);
    for &d in &[4usize, 8, 16] {
        for _ in 0..50 {
            let a: Vec<f32> = (0..d).map(|_| rng.gen::<f32>() * 4.0 - 2.0).collect();
            let b: Vec<f32> = (0..d).map(|_| rng.gen::<f32>() * 4.0 - 2.0).collect();
            let de = (euclidean_scalar(&a, &b) - euclidean_lanes(&a, &b)).abs();
            assert!(de < 1e-5, "euclidean kernels diverged by {} at d={}", de, d);
            let dc = (cosine_scalar(&a, &b) - cosine_lanes(&a, &b)).abs();
            assert!(dc < 1e-5, "cosine kernels diverged by {} at d={}", dc, d);
        }
    }
}

#[test]
fn distance_bits_order_as_distances() {
    // Non-negative single-precision values order exactly as their bit
    // patterns, which is what lets the engine rank distance words.
    let samples = [0.0f32, 1e-30, 0.1, 0.2, 1.0, 2.5, 1000.0, f32::MAX];
    for w in samples.windows(2) {
        assert!(w[0] < w[1]);
        assert!(w[0].to_bits() < w[1].to_bits());
    }
}

fn quantize(vals: &[f32], scale: f32, clamp: bool) -> Vec<i8> {
    vals.iter()
        .map(|v| {
            let v = if clamp { v.clamp(-1.0, 1.0) } else { *v };
            (v * scale).round() as i8
        })
        .collect()
}

fn dequantize(q: &[i8], scale: f32) -> Vec<f32> {
    q.iter().map(|x| *x as f32 / scale).collect()
}

#[test]
fn quantization_error_is_bounded() {
    let mut rng = SmallRng::seed_from_u64(7);
    let scale = 127.0f32;
    for _ in 0..100 {
        let vals: Vec<f32> = (0..16).map(|_| rng.gen::<f32>() * 2.0 - 1.0).collect();
        let q = quantize(&vals, scale, true);
        let back = dequantize(&q, scale);
        let worst = vals
            .iter()
            .zip(back.iter())
            .map(|(a, b)| (a - b).abs())
            .fold(0.0f32, f32::max);
        assert!(worst <= 1.0 / scale, "error {} exceeds {}", worst, 1.0 / scale);
    }
}

#[test]
fn quantization_round_trips_through_the_library_type() {
    let vals = [0.5f32, -0.25, 1.0, -1.0];
    let scale = 127.0f32;
    let q = quantize(&vals, scale, true);
    let v = vfs::vector::VFSVector::from_quantized_vec(
        q.clone(),
        1,
        scale.to_bits(),
        "qv",
        Vec::new(),
        String::new(),
    );
    let (stored, scale_bits) = v.quantized_bits().unwrap();
    assert_eq!(stored, q);
    let back = dequantize(&stored, f32::from_bits(scale_bits));
    for (a, b) in vals.iter().zip(back.iter()) {
        assert!((a - b).abs() <= 1.0 / scale);
    }
}

#[test]
fn strip_quantized_tag_removes_only_the_marker() {
    let tags = vec!["raw".to_string(), "quantized".to_string(), "kept".to_string()];
    let stripped = vfs::vector::strip_quantized_tag(&tags);
    assert_eq!(stripped, vec!["raw".to_string(), "kept".to_string()]);
}
