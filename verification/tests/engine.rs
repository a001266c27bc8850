use kmeans::{AbortStrategy, Initializer, KMeans, KMeansConfig, KMeansError, KMeansState};
use rand::rngs::StdRng;
use rand::{Rng, SeedableRng};

fn config(seed: u64) -> KMeansConfig {
    KMeansConfig::new(StdRng::seed_from_u64(seed), AbortStrategy::NoAbort)
}

fn dist_sq(a: &[i64], b: &[i64]) -> u64 {
    let mut acc: u64 = 0;
    for t in 0..a.len() {
        let d = a[t] - b[t];
        acc += (d * d) as u64;
    }
    acc
}

fn centroid_row<'a>(state: &'a KMeansState, j: usize) -> &'a [i64] {
    let p = state.sample_dims;
    &state.centroids[j * p..(j + 1) * p]
}

fn sample_row<'a>(km: &'a KMeans, i: usize) -> &'a [i64] {
    let p = km.p_sample_dims;
    &km.p_samples[i * p..(i + 1) * p]
}

/// Brute-force check of full consistency: every assignment names a nearest
/// centroid, every distance entry is the minimum squared distance, and the
/// distance sum is their total.
fn assert_consistent(km: &KMeans, state: &KMeansState) {
    let n = km.sample_cnt;
    let k = state.k;
    let mut total: u64 = 0;
    for i in 0..n {
        let a = state.assignments[i];
        assert!(a < k);
        let mut best = u64::MAX;
        for j in 0..k {
            let d = dist_sq(sample_row(km, i), centroid_row(state, j));
            if d < best {
                best = d;
            }
        }
        assert_eq!(state.centroid_distances[i], best);
        assert_eq!(dist_sq(sample_row(km, i), centroid_row(state, a)), best);
        total += best;
    }
    assert_eq!(state.distsum, total);
}

#[test]
fn two_well_separated_pairs_converge() {
    // Four samples in two dimensions; the two clusters sit 20 apart while
    // each pair is 2 apart, so Lloyd must converge to the two pair means
    // (0, 1) and (20, 1), each point at squared distance 1: total 4.
    let samples: Vec<i64> = vec![0, 0, 0, 2, 20, 0, 20, 2];
    let km = KMeans::new(samples, 4, 2).unwrap();
    for seed in [1u64, 7, 42] {
        let mut conf = config(seed);
        let state = km
            .kmeans_lloyd(2, 20, Initializer::KMeansPlusPlus, &mut conf)
            .unwrap();
        assert_eq!(state.distsum, 4);
        assert_consistent(&km, &state);
        let mut rows: Vec<Vec<i64>> = (0..2)
            .map(|j| centroid_row(&state, j)[..2].to_vec())
            .collect();
        rows.sort();
        assert_eq!(rows, vec![vec![0, 1], vec![20, 1]]);
    }
}

#[test]
fn two_pairs_with_fractional_means_floor() {
    // The same two clusters with an odd within-pair spread: the true pair
    // means have fractional second coordinate 0.5, which the integer engine
    // floors to 0. Each pair then contributes 0 + 1 to the total.
    let samples: Vec<i64> = vec![0, 0, 0, 1, 10, 0, 10, 1];
    let km = KMeans::new(samples, 4, 2).unwrap();
    let mut conf = config(2);
    let state = km
        .kmeans_lloyd(2, 20, Initializer::KMeansPlusPlus, &mut conf)
        .unwrap();
    assert_eq!(state.distsum, 2);
    assert_consistent(&km, &state);
    let mut rows: Vec<Vec<i64>> = (0..2)
        .map(|j| centroid_row(&state, j)[..2].to_vec())
        .collect();
    rows.sort();
    assert_eq!(rows, vec![vec![0, 0], vec![10, 0]]);
}

#[test]
fn minibatch_first_batch_lands_on_batch_mean() {
    // A centroid whose accumulated point count was zero lands exactly on
    // the mean of its first batch: replay the generator's draws and predict
    // every centroid of a single minibatch iteration.
    let n = 10usize;
    let samples: Vec<i64> = (0..n as i64).map(|i| (i * 13) % 97).collect();
    let km = KMeans::new(samples.clone(), n, 1).unwrap();
    let k = 2usize;
    let batch = 5usize;
    let seed = 19u64;
    let mut conf = config(seed);
    let state = km
        .kmeans_minibatch(batch, k, 1, Initializer::RandomSample, &mut conf)
        .unwrap();

    // Replay: the initializer draws k row indices, the one iteration draws
    // `batch` sample indices.
    let mut rng = StdRng::seed_from_u64(seed);
    let mut init: Vec<i64> = Vec::new();
    for _ in 0..k {
        let idx: usize = rng.gen_range(0..n);
        init.push(samples[idx]);
    }
    let mut counts = vec![0i64; k];
    let mut sums = vec![0i64; k];
    for _ in 0..batch {
        let idx: usize = rng.gen_range(0..n);
        let mut best = u64::MAX;
        let mut bj = 0usize;
        for j in 0..k {
            let d = ((samples[idx] - init[j]) * (samples[idx] - init[j])) as u64;
            if d < best {
                best = d;
                bj = j;
            }
        }
        counts[bj] += 1;
        sums[bj] += samples[idx];
    }
    for j in 0..k {
        let expected = if counts[j] > 0 {
            sums[j].div_euclid(counts[j]) // the batch mean: prior count was zero
        } else {
            init[j]
        };
        assert_eq!(centroid_row(&state, j)[0], expected);
    }
}

#[test]
fn single_sample_single_cluster() {
    // One sample, one cluster: the centroid is the sample itself and the
    // total distance is zero after a single iteration.
    let samples: Vec<i64> = vec![5, 7, -3];
    let km = KMeans::new(samples, 1, 3).unwrap();
    let mut conf = config(3);
    let state = km
        .kmeans_lloyd(1, 1, Initializer::RandomSample, &mut conf)
        .unwrap();
    assert_eq!(&centroid_row(&state, 0)[..3], &[5, 7, -3]);
    assert_eq!(state.distsum, 0);
    assert_eq!(state.assignments, vec![0]);
    assert_eq!(state.centroid_frequency, vec![1]);
    assert_consistent(&km, &state);
}

#[test]
fn assignments_in_range_and_distsum_matches() {
    // A run over scattered data: every assignment lies in [0, k) and the
    // distance sum equals a brute-force recomputation.
    let mut samples: Vec<i64> = Vec::new();
    for i in 0..30i64 {
        samples.push((i * 37) % 101 - 50);
        samples.push((i * 53) % 89 - 44);
        samples.push((i * 11) % 71 - 35);
    }
    let km = KMeans::new(samples, 30, 3).unwrap();
    let mut conf = config(9);
    let state = km
        .kmeans_lloyd(5, 12, Initializer::KMeansPlusPlus, &mut conf)
        .unwrap();
    assert_eq!(state.k, 5);
    assert_consistent(&km, &state);
}

#[test]
fn lloyd_distance_sum_non_increasing() {
    // Monotone convergence, observed over iteration budgets: re-running with
    // the same seed and a larger budget never yields a larger distance sum
    // on this data set.
    let mut samples: Vec<i64> = Vec::new();
    for i in 0..24i64 {
        samples.push((i * 29) % 83 - 41);
        samples.push((i * 43) % 97 - 48);
    }
    let km = KMeans::new(samples, 24, 2).unwrap();
    let mut last = u64::MAX;
    for budget in 1..8usize {
        let mut conf = config(11);
        let state = km
            .kmeans_lloyd(3, budget, Initializer::RandomSample, &mut conf)
            .unwrap();
        assert!(state.distsum <= last);
        last = state.distsum;
    }
}

#[test]
fn minibatch_full_batch_runs_consistent() {
    // Minibatch with the batch size equal to the full sample count: the
    // result has the same shape and consistency guarantees as Lloyd's.
    let samples: Vec<i64> = vec![0, 0, 0, 2, 20, 0, 20, 2];
    let km = KMeans::new(samples, 4, 2).unwrap();
    let mut conf = config(5);
    let state = km
        .kmeans_minibatch(4, 2, 10, Initializer::KMeansPlusPlus, &mut conf)
        .unwrap();
    assert_eq!(state.k, 2);
    assert_consistent(&km, &state);
}

#[test]
fn minibatch_seed_reproducible() {
    let mut samples: Vec<i64> = Vec::new();
    for i in 0..20i64 {
        samples.push((i * 31) % 73 - 36);
        samples.push((i * 47) % 61 - 30);
    }
    let km = KMeans::new(samples, 20, 2).unwrap();
    let mut c1 = config(21);
    let s1 = km
        .kmeans_minibatch(6, 3, 8, Initializer::RandomSample, &mut c1)
        .unwrap();
    let mut c2 = config(21);
    let s2 = km
        .kmeans_minibatch(6, 3, 8, Initializer::RandomSample, &mut c2)
        .unwrap();
    assert_eq!(s1.centroids, s2.centroids);
    assert_eq!(s1.assignments, s2.assignments);
    assert_eq!(s1.distsum, s2.distsum);
}

#[test]
fn construction_errors() {
    // Mismatched buffer length, zero counts, and an out-of-range coordinate
    // each yield their own error.
    assert_eq!(
        KMeans::new(vec![1, 2, 3], 2, 2).unwrap_err(),
        KMeansError::InvalidShape
    );
    assert_eq!(
        KMeans::new(vec![], 0, 2).unwrap_err(),
        KMeansError::InvalidShape
    );
    assert_eq!(
        KMeans::new(vec![1, 2], 1, 0).unwrap_err(),
        KMeansError::InvalidShape
    );
    assert_eq!(
        KMeans::new(vec![1, 70000], 1, 2).unwrap_err(),
        KMeansError::CoordinateOutOfRange
    );
    assert_eq!(
        KMeans::new(vec![1, -70000], 1, 2).unwrap_err(),
        KMeansError::CoordinateOutOfRange
    );
}

#[test]
fn run_parameter_errors() {
    let km = KMeans::new(vec![0, 1, 2, 3], 4, 1).unwrap();
    let mut conf = config(1);
    assert_eq!(
        km.kmeans_lloyd(0, 5, Initializer::RandomSample, &mut conf)
            .unwrap_err(),
        KMeansError::InvalidClusterCount
    );
    assert_eq!(
        km.kmeans_lloyd(5, 5, Initializer::RandomSample, &mut conf)
            .unwrap_err(),
        KMeansError::InvalidClusterCount
    );
    assert_eq!(
        km.kmeans_minibatch(0, 2, 5, Initializer::RandomSample, &mut conf)
            .unwrap_err(),
        KMeansError::InvalidBatchSize
    );
    assert_eq!(
        km.kmeans_minibatch(kmeans::TOTAL_MAX + 1, 2, 5, Initializer::RandomSample, &mut conf)
            .unwrap_err(),
        KMeansError::InvalidBatchSize
    );
}

#[test]
fn abort_strategy_decisions() {
    let no_abort = AbortStrategy::NoAbort;
    assert!(!no_abort.should_abort(&vec![5, 5, 5]));

    let s = AbortStrategy::NoImprovement { threshold: 2 };
    assert!(!s.should_abort(&vec![10]));
    assert!(!s.should_abort(&vec![10, 7])); // improved by 3 >= 2
    assert!(s.should_abort(&vec![10, 9])); // improved by 1 < 2
    assert!(s.should_abort(&vec![10, 11])); // worsened

    let x = AbortStrategy::NoImprovementForXIterations { x: 2, threshold: 1 };
    assert!(!x.should_abort(&vec![10, 9]));
    assert!(!x.should_abort(&vec![10, 8, 9])); // improved by 1 >= 1 over 2 steps
    assert!(x.should_abort(&vec![10, 10, 10])); // no improvement over 2 steps
}

#[test]
fn aligned_buffer_shape() {
    let v: Vec<i64> = kmeans::AlignedFloatVec::new(16);
    assert_eq!(v.len(), 16);
    assert!(v.iter().all(|&x| x == 0));
    let u: Vec<u64> = kmeans::AlignedFloatVec::new_uninitialized(8);
    assert_eq!(u.len(), 8);
}

#[test]
fn padded_rows_copy_samples_and_zero_fill() {
    let km = KMeans::new(vec![1, 2, 3, 4, 5, 6], 2, 3).unwrap();
    assert_eq!(km.p_sample_dims, 8);
    assert_eq!(&km.p_samples[0..3], &[1, 2, 3]);
    assert!(km.p_samples[3..8].iter().all(|&x| x == 0));
    assert_eq!(&km.p_samples[8..11], &[4, 5, 6]);
    assert!(km.p_samples[11..16].iter().all(|&x| x == 0));
}
