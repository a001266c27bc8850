//! K-means++ initialization: the first centroid is a uniform draw; each
//! following centroid is a sample drawn with probability proportional to its
//! current squared distance to the nearest already-chosen centroid.

use vstd::prelude::*;
use crate::api::{KMeans, KMeansConfig, KMeansState};
use crate::helpers::{
    dist_sq, lemma_dist_sq_bound, lemma_min_dist_same_prefix, lemma_row_bounded,
    lemma_row_in_bounds, lemma_sum_dists_pos_exists, min2, min_dist_upto, spec_row, sum_dists,
    DIST_PER_DIM_MAX,
};
use crate::memory::TOTAL_MAX;
use crate::random::{rand_below, weighted_index_new, weighted_index_sample, weighted_index_weights};

verus! {

/// K-means++ initialization over a fresh working set (every distance entry
/// still at its `u64::MAX` starting value).
///
/// Centroid 0 is a sample row drawn uniformly at random. For each following
/// centroid `k`, the partial kernel refreshes every sample's distance to the
/// nearest of the first `k` centroids, and the next centroid is a sample row
/// drawn with probability proportional to that distance: the distance
/// entries themselves are the weights of the draw (their normalization to
/// probabilities is internal to the weighted distribution). A zero distance
/// sum — every sample coincides with a chosen centroid — falls back to a
/// uniform draw.
///
/// Afterwards every distance entry is the minimum squared distance to the
/// nearest of all `k` centroids, the distance sum is their total, and every
/// centroid row is a verbatim sample row.
pub fn calculate(kmean: &KMeans, state: &mut KMeansState, config: &mut KMeansConfig)
    requires
        kmean.wf(),
        kmean.valid_state(*old(state)),
        forall|i: int|
            0 <= i < kmean.sample_cnt ==> #[trigger] old(state).centroid_distances@[i]
                == u64::MAX,
    ensures
        kmean.valid_state(*final(state)),
        final(state).k == old(state).k,
        final(state).sample_dims == old(state).sample_dims,
        final(state).assignments@ == old(state).assignments@,
        final(state).centroid_frequency@ == old(state).centroid_frequency@,
        kmean.distances_consistent(*final(state), final(state).k as int),
        final(state).distsum as int == sum_dists(final(state).centroid_distances@),
        final(state).distances_bounded(),
        forall|j: int|
            0 <= j < final(state).k ==> #[trigger] kmean.row_from_samples(*final(state), j),
{
    let ghost orig = *state;
    let n = kmean.sample_cnt;
    let p = state.sample_dims;
    let first = rand_below(&mut config.rnd, n);
    state.set_centroid(0, kmean, first);
    let ghost placed = *state;
    kmean.update_cluster_assignments(state, Some(0));
    proof {
        assert(p as int <= TOTAL_MAX as int) by (nonlinear_arith)
            requires
                state.k as int >= 1,
                p as int >= 1,
                state.k as int * (p as int) <= TOTAL_MAX as int,
        ;
        assert(p as int * DIST_PER_DIM_MAX <= TOTAL_MAX as int * DIST_PER_DIM_MAX)
            by (nonlinear_arith)
            requires
                1 <= p as int <= TOTAL_MAX as int,
        ;
        assert(p as int * DIST_PER_DIM_MAX < u64::MAX);
        assert forall|i: int| 0 <= i < n implies #[trigger] state.centroid_distances@[i] as int
            == min_dist_upto(kmean.spec_sample_row(i), state.centroids@, p as int, 1) by {
            lemma_row_in_bounds(
                kmean.p_samples@.len() as int,
                p as int,
                kmean.sample_cnt as int,
                i,
            );
            lemma_row_in_bounds(placed.centroids@.len() as int, p as int, placed.k as int, 0);
            lemma_row_bounded(kmean.p_samples@, p as int, i);
            lemma_row_bounded(placed.centroids@, p as int, 0);
            lemma_dist_sq_bound(kmean.spec_sample_row(i), placed.spec_centroid_row(0));
            assert(state.centroid_distances@[i] as int == min2(
                u64::MAX as int,
                dist_sq(kmean.spec_sample_row(i), placed.spec_centroid_row(0)),
            ));
        }
    }
    proof {
        assert(state.spec_centroid_row(0) == kmean.spec_sample_row(first as int));
        assert forall|j2: int| 0 <= j2 < 1 implies #[trigger] kmean.row_from_samples(*state, j2) by {
            assert(first < kmean.sample_cnt && state.spec_centroid_row(j2)
                == kmean.spec_sample_row(first as int));
        }
    }
    let k = state.k;
    let mut kk: usize = 1;
    while kk < k
        invariant
            kmean.wf(),
            kmean.valid_state(*state),
            k == state.k,
            n == kmean.sample_cnt,
            p == state.sample_dims,
            1 <= kk <= k,
            state.k == orig.k,
            state.sample_dims == orig.sample_dims,
            state.assignments@ == orig.assignments@,
            state.centroid_frequency@ == orig.centroid_frequency@,
            kmean.distances_consistent(*state, kk as int),
            state.distsum as int == sum_dists(state.centroid_distances@),
            state.distances_bounded(),
            forall|j2: int| 0 <= j2 < kk ==> #[trigger] kmean.row_from_samples(*state, j2),
        decreases k - kk,
    {
        let idx: usize;
        if state.distsum == 0 {
            idx = rand_below(&mut config.rnd, n);
        } else {
            proof {
                lemma_sum_dists_pos_exists(state.centroid_distances@);
            }
            let wi_opt = weighted_index_new(&state.centroid_distances);
            let wi = wi_opt.unwrap();
            idx = weighted_index_sample(&mut config.rnd, &wi);
            proof {
                assert(weighted_index_weights(wi) == state.centroid_distances@);
            }
        }
        let ghost pre = *state;
        state.set_centroid(kk, kmean, idx);
        let ghost placed2 = *state;
        proof {
            assert forall|j2: int| 0 <= j2 < kk as int implies spec_row(
                placed2.centroids@,
                p as int,
                j2,
            ) == spec_row(pre.centroids@, p as int, j2) by {
                assert(placed2.spec_centroid_row(j2) == pre.spec_centroid_row(j2));
            }
            assert forall|i: int| 0 <= i < n implies min_dist_upto(
                kmean.spec_sample_row(i),
                pre.centroids@,
                p as int,
                kk as int,
            ) == min_dist_upto(
                kmean.spec_sample_row(i),
                placed2.centroids@,
                p as int,
                kk as int,
            ) by {
                lemma_min_dist_same_prefix(
                    kmean.spec_sample_row(i),
                    pre.centroids@,
                    placed2.centroids@,
                    p as int,
                    kk as int,
                );
            }
        }
        kmean.update_cluster_assignments(state, Some(kk));
        proof {
            assert forall|i: int| 0 <= i < n implies #[trigger] state.centroid_distances@[i]
                as int == min_dist_upto(
                kmean.spec_sample_row(i),
                state.centroids@,
                p as int,
                kk as int + 1,
            ) by {
                assert(state.centroid_distances@[i] as int == min2(
                    placed2.centroid_distances@[i] as int,
                    dist_sq(kmean.spec_sample_row(i), placed2.spec_centroid_row(kk as int)),
                ));
                assert(placed2.centroid_distances@[i] == pre.centroid_distances@[i]);
            }
            assert(state.spec_centroid_row(kk as int) == kmean.spec_sample_row(idx as int));
            assert forall|j2: int| 0 <= j2 < kk as int + 1 implies #[trigger] kmean.row_from_samples(
                *state,
                j2,
            ) by {
                if j2 == kk as int {
                    assert(idx < kmean.sample_cnt && state.spec_centroid_row(j2)
                        == kmean.spec_sample_row(idx as int));
                } else {
                    assert(kmean.row_from_samples(pre, j2));
                    let i0 = choose|i: int|
                        0 <= i < kmean.sample_cnt && pre.spec_centroid_row(j2)
                            == #[trigger] kmean.spec_sample_row(i);
                    assert(state.spec_centroid_row(j2) == pre.spec_centroid_row(j2));
                    assert(state.spec_centroid_row(j2) == kmean.spec_sample_row(i0));
                }
            }
        }
        kk += 1;
    }
}

} // verus!
