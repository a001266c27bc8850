use kmeans::{AbortStrategy, KMeans, KMeansConfig, KMeansState};
use kmeans::inits::{kmeanplusplus, randomsample};
use rand::rngs::StdRng;
use rand::{Rng, SeedableRng};

fn config(seed: u64) -> KMeansConfig {
    KMeansConfig::new(StdRng::seed_from_u64(seed), AbortStrategy::NoAbort)
}

fn dist_sq(a: &[i64], b: &[i64]) -> u64 {
    let mut acc: u64 = 0;
    for t in 0..a.len() {
        let d = a[t] - b[t];
        acc += (d * d) as u64;
    }
    acc
}

fn centroid_row<'a>(state: &'a KMeansState, j: usize) -> &'a [i64] {
    let p = state.sample_dims;
    &state.centroids[j * p..(j + 1) * p]
}

fn sample_row<'a>(km: &'a KMeans, i: usize) -> &'a [i64] {
    let p = km.p_sample_dims;
    &km.p_samples[i * p..(i + 1) * p]
}

fn scattered(n: i64, d: usize) -> Vec<i64> {
    let mut samples: Vec<i64> = Vec::new();
    for i in 0..n {
        for t in 0..d as i64 {
            samples.push((i * (19 + 6 * t) + t * t) % 103 - 51);
        }
    }
    samples
}

#[test]
fn kmeanplusplus_single_cluster_takes_the_uniform_draw() {
    // With k = 1 the initializer places exactly the one uniformly drawn
    // sample and applies no weighting: the same seed fed to the same
    // generator predicts the drawn index.
    let n = 12usize;
    let km = KMeans::new(scattered(n as i64, 2), n, 2).unwrap();
    let seed = 77u64;
    let mut state = KMeansState::new(n, km.p_sample_dims, 1);
    let mut conf = config(seed);
    kmeanplusplus::calculate(&km, &mut state, &mut conf);
    let expected: usize = StdRng::seed_from_u64(seed).gen_range(0..n);
    assert_eq!(centroid_row(&state, 0), sample_row(&km, expected));
    // With one sample the draw can only be that sample.
    let km1 = KMeans::new(vec![4, -9], 1, 2).unwrap();
    let mut state1 = KMeansState::new(1, km1.p_sample_dims, 1);
    let mut conf1 = config(5);
    kmeanplusplus::calculate(&km1, &mut state1, &mut conf1);
    assert_eq!(centroid_row(&state1, 0), sample_row(&km1, 0));
    assert_eq!(state1.distsum, 0);
}

#[test]
fn kmeanplusplus_reproducible_and_seed_sensitive() {
    let n = 40usize;
    let km = KMeans::new(scattered(n as i64, 3), n, 3).unwrap();
    let run = |seed: u64| -> KMeansState {
        let mut state = KMeansState::new(n, km.p_sample_dims, 5);
        let mut conf = config(seed);
        kmeanplusplus::calculate(&km, &mut state, &mut conf);
        state
    };
    let a = run(101);
    let b = run(101);
    assert_eq!(a.centroids, b.centroids);
    assert_eq!(a.distsum, b.distsum);
    let c = run(102);
    assert_ne!(a.centroids, c.centroids);
}

#[test]
fn kmeanplusplus_distances_match_brute_force() {
    // After initialization every distance entry is the minimum squared
    // distance to the nearest chosen centroid and the sum matches.
    let n = 25usize;
    let km = KMeans::new(scattered(n as i64, 2), n, 2).unwrap();
    let k = 4usize;
    let mut state = KMeansState::new(n, km.p_sample_dims, k);
    let mut conf = config(13);
    kmeanplusplus::calculate(&km, &mut state, &mut conf);
    let mut total: u64 = 0;
    for i in 0..n {
        let mut best = u64::MAX;
        for j in 0..k {
            let d = dist_sq(sample_row(&km, i), centroid_row(&state, j));
            if d < best {
                best = d;
            }
        }
        assert_eq!(state.centroid_distances[i], best);
        total += best;
    }
    assert_eq!(state.distsum, total);
}

#[test]
fn kmeanplusplus_handles_coinciding_samples() {
    // Every sample is the same point: after the first centroid all weights
    // are zero, so the degenerate fallback (a uniform draw) must kick in
    // rather than a failure.
    let n = 6usize;
    let samples: Vec<i64> = std::iter::repeat([3i64, -2]).take(n).flatten().collect();
    let km = KMeans::new(samples, n, 2).unwrap();
    let mut state = KMeansState::new(n, km.p_sample_dims, 3);
    let mut conf = config(8);
    kmeanplusplus::calculate(&km, &mut state, &mut conf);
    for j in 0..3 {
        assert_eq!(&centroid_row(&state, j)[..2], &[3, -2]);
    }
    assert_eq!(state.distsum, 0);
}

#[test]
fn random_sample_rows_verbatim_and_reproducible() {
    let n = 18usize;
    let km = KMeans::new(scattered(n as i64, 2), n, 2).unwrap();
    let k = 4usize;
    let run = |seed: u64| -> KMeansState {
        let mut state = KMeansState::new(n, km.p_sample_dims, k);
        let mut conf = config(seed);
        randomsample::calculate(&km, &mut state, &mut conf);
        state
    };
    let a = run(33);
    let b = run(33);
    assert_eq!(a.centroids, b.centroids);
    for j in 0..k {
        let row = centroid_row(&a, j);
        assert!((0..n).any(|i| sample_row(&km, i) == row));
    }
}

#[test]
fn partial_kernel_matches_brute_force_prefix_minimum() {
    // Feed centroids one at a time through the partial kernel; after each
    // step every distance entry equals the brute-force minimum over the
    // centroids considered so far.
    let n = 15usize;
    let km = KMeans::new(scattered(n as i64, 2), n, 2).unwrap();
    let k = 4usize;
    let mut state = KMeansState::new(n, km.p_sample_dims, k);
    let picks = [2usize, 7, 11, 3];
    for (j, &pick) in picks.iter().enumerate() {
        state.set_centroid(j, &km, pick);
        km.update_cluster_assignments(&mut state, Some(j));
        let mut total: u64 = 0;
        for i in 0..n {
            let mut best = u64::MAX;
            for c in 0..=j {
                let d = dist_sq(sample_row(&km, i), centroid_row(&state, c));
                if d < best {
                    best = d;
                }
            }
            assert_eq!(state.centroid_distances[i], best);
            total += best;
        }
        assert_eq!(state.distsum, total);
    }
}
