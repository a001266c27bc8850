//! Full-batch Lloyd iteration: assign every sample to its nearest centroid,
//! move every centroid to the mean of its assigned samples, and repeat until
//! the early-stop policy fires or the iteration budget is spent.

use vstd::prelude::*;
use crate::api::{Initializer, KMeans, KMeansConfig, KMeansError, KMeansState};
use crate::helpers::{
    cluster_coord_sum, cluster_count, coords_bounded, div_floor, lemma_cluster_count_bounds,
    lemma_cluster_sum_bound, lemma_div_floor_bound, lemma_flat_index, lemma_mul_keeps_mod_zero,
    lemma_row_in_bounds,
};
use crate::memory::{AlignedFloatVec, COORD_MAX, TOTAL_MAX};

verus! {

impl KMeans {
    /// Recompute the per-centroid point counts from the assignment vector.
    pub(crate) fn update_cluster_frequencies(&self, state: &mut KMeansState)
        requires
            self.wf(),
            self.valid_state(*old(state)),
            forall|i: int|
                0 <= i < self.sample_cnt ==> #[trigger] old(state).assignments@[i] < old(state).k,
        ensures
            self.valid_state(*final(state)),
            final(state).k == old(state).k,
            final(state).sample_dims == old(state).sample_dims,
            final(state).distsum == old(state).distsum,
            final(state).centroids@ == old(state).centroids@,
            final(state).assignments@ == old(state).assignments@,
            final(state).centroid_distances@ == old(state).centroid_distances@,
            forall|j: int|
                0 <= j < final(state).k ==> #[trigger] final(state).centroid_frequency@[j] as int
                    == cluster_count(
                    final(state).assignments@,
                    j,
                    self.sample_cnt as int,
                ),
    {
        let n = self.sample_cnt;
        let k = state.k;
        let mut counts = crate::api::filled_usize(k, 0);
        let mut i: usize = 0;
        while i < n
            invariant
                n == self.sample_cnt,
                k == state.k,
                counts@.len() == k,
                i <= n,
                state.assignments@.len() == n,
                forall|i2: int| 0 <= i2 < n ==> #[trigger] state.assignments@[i2] < k,
                forall|j: int|
                    0 <= j < k ==> #[trigger] counts@[j] as int == cluster_count(
                        state.assignments@,
                        j,
                        i as int,
                    ),
                forall|j: int| 0 <= j < k ==> #[trigger] counts@[j] <= i,
            decreases n - i,
        {
            let a = state.assignments[i];
            let c = counts[a];
            counts[a] = c + 1;
            i += 1;
        }
        state.centroid_frequency = counts;
    }

    /// Move every centroid with at least one assigned sample to the
    /// (floor-of-)mean of its assigned samples; a centroid with none keeps
    /// its position. Point counts must already match the assignment vector.
    pub(crate) fn update_centroid_means(&self, state: &mut KMeansState)
        requires
            self.wf(),
            self.valid_state(*old(state)),
            forall|i: int|
                0 <= i < self.sample_cnt ==> #[trigger] old(state).assignments@[i] < old(state).k,
            forall|j: int|
                0 <= j < old(state).k ==> #[trigger] old(state).centroid_frequency@[j] as int
                    == cluster_count(
                    old(state).assignments@,
                    j,
                    self.sample_cnt as int,
                ),
        ensures
            self.valid_state(*final(state)),
            final(state).k == old(state).k,
            final(state).sample_dims == old(state).sample_dims,
            final(state).distsum == old(state).distsum,
            final(state).assignments@ == old(state).assignments@,
            final(state).centroid_distances@ == old(state).centroid_distances@,
            final(state).centroid_frequency@ == old(state).centroid_frequency@,
            forall|j: int|
                0 <= j < final(state).k && cluster_count(
                    old(state).assignments@,
                    j,
                    self.sample_cnt as int,
                ) == 0 ==> #[trigger] final(state).spec_centroid_row(j)
                    == old(state).spec_centroid_row(j),
            forall|j: int, t: int|
                0 <= j < final(state).k && 0 <= t < final(state).sample_dims && cluster_count(
                    old(state).assignments@,
                    j,
                    self.sample_cnt as int,
                ) > 0 ==> #[trigger] final(state).spec_centroid_row(j)[t] == cluster_coord_sum(
                    self.p_samples@,
                    final(state).sample_dims as int,
                    old(state).assignments@,
                    j,
                    t,
                    self.sample_cnt as int,
                ) / cluster_count(old(state).assignments@, j, self.sample_cnt as int),
    {
        let ghost orig = *state;
        let n = self.sample_cnt;
        let k = state.k;
        let p = state.sample_dims;
        proof {
            lemma_mul_keeps_mod_zero(k as int, p as int, crate::memory::LANES as int);
            assert(n as int <= TOTAL_MAX as int) by (nonlinear_arith)
                requires
                    n as int >= 1,
                    self.p_sample_dims as int >= 1,
                    n as int * self.p_sample_dims as int <= TOTAL_MAX as int,
            ;
        }
        let mut sums: Vec<i64> = AlignedFloatVec::new(k * p);
        let mut i: usize = 0;
        while i < n
            invariant
                self.wf(),
                self.valid_state(*state),
                *state == orig,
                n == self.sample_cnt,
                n <= TOTAL_MAX,
                k == state.k,
                p == state.sample_dims,
                i <= n,
                sums@.len() == k as int * p as int,
                forall|i2: int| 0 <= i2 < n ==> #[trigger] state.assignments@[i2] < k,
                forall|q: int|
                    0 <= q < sums@.len() ==> #[trigger] sums@[q] as int == cluster_coord_sum(
                        self.p_samples@,
                        p as int,
                        state.assignments@,
                        q / (p as int),
                        q % (p as int),
                        i as int,
                    ),
            decreases n - i,
        {
            let a = state.assignments[i];
            proof {
                assert(sums@.len() == sums.len());
                assert(self.p_samples@.len() == self.p_samples.len());
                lemma_row_in_bounds(sums@.len() as int, p as int, k as int, a as int);
                lemma_row_in_bounds(self.p_samples@.len() as int, p as int, n as int, i as int);
            }
            let base_c = a * p;
            let base_s = i * p;
            let mut t: usize = 0;
            while t < p
                invariant
                    self.wf(),
                    self.valid_state(*state),
                    *state == orig,
                    n == self.sample_cnt,
                    n <= TOTAL_MAX,
                    k == state.k,
                    p == state.sample_dims,
                    i < n,
                    t <= p,
                    a == state.assignments@[i as int],
                    a < k,
                    base_c == a as int * p as int,
                    base_s == i as int * p as int,
                    base_c + p <= sums@.len(),
                    base_s + p <= self.p_samples@.len(),
                    sums@.len() == k as int * p as int,
                    forall|i2: int| 0 <= i2 < n ==> #[trigger] state.assignments@[i2] < k,
                    forall|q: int|
                        0 <= q < sums@.len() && q / (p as int) == a as int && q % (p as int) < t
                            ==> #[trigger] sums@[q] as int == cluster_coord_sum(
                            self.p_samples@,
                            p as int,
                            state.assignments@,
                            q / (p as int),
                            q % (p as int),
                            i as int + 1,
                        ),
                    forall|q: int|
                        0 <= q < sums@.len() && !(q / (p as int) == a as int && q % (p as int)
                            < t) ==> #[trigger] sums@[q] as int == cluster_coord_sum(
                            self.p_samples@,
                            p as int,
                            state.assignments@,
                            q / (p as int),
                            q % (p as int),
                            i as int,
                        ),
                decreases p - t,
            {
                let cur = sums[base_c + t];
                let v = self.p_samples[base_s + t];
                proof {
                    lemma_flat_index(p as int, a as int, t as int);
                    assert(sums@[base_c + t as int] as int == cluster_coord_sum(
                        self.p_samples@,
                        p as int,
                        state.assignments@,
                        a as int,
                        t as int,
                        i as int,
                    ));
                    lemma_cluster_count_bounds(state.assignments@, a as int, i as int);
                    assert(i as int * (p as int) <= n as int * (p as int)) by (nonlinear_arith)
                        requires
                            i as int <= n as int,
                            p as int >= 1,
                    ;
                    lemma_cluster_sum_bound(
                        self.p_samples@,
                        p as int,
                        state.assignments@,
                        a as int,
                        t as int,
                        i as int,
                    );
                    assert(cluster_count(state.assignments@, a as int, i as int) * COORD_MAX
                        <= i as int * COORD_MAX);
                    assert(-(i as int) * COORD_MAX <= cur as int <= i as int * COORD_MAX);
                    assert(-COORD_MAX <= v <= COORD_MAX);
                }
                let updated = cur + v;
                sums[base_c + t] = updated;
                proof {
                    let ghost t_new = t as int + 1;
                    assert forall|q: int|
                        0 <= q < sums@.len() && q / (p as int) == a as int && q % (p as int)
                            < t_new implies #[trigger] sums@[q] as int == cluster_coord_sum(
                        self.p_samples@,
                        p as int,
                        state.assignments@,
                        q / (p as int),
                        q % (p as int),
                        i as int + 1,
                    ) by {
                        vstd::arithmetic::div_mod::lemma_fundamental_div_mod(q, p as int);
                        assert(q == (p as int) * (a as int) + q % (p as int));
                        assert((p as int) * (a as int) == base_c) by (nonlinear_arith)
                            requires
                                base_c == a as int * p as int,
                        ;
                        if q % (p as int) == t as int {
                            assert(q == base_c + t as int);
                        } else {
                            assert(q != base_c + t as int);
                        }
                    }
                    assert forall|q: int|
                        0 <= q < sums@.len() && !(q / (p as int) == a as int && q % (p as int)
                            < t_new) implies #[trigger] sums@[q] as int == cluster_coord_sum(
                        self.p_samples@,
                        p as int,
                        state.assignments@,
                        q / (p as int),
                        q % (p as int),
                        i as int,
                    ) by {
                        vstd::arithmetic::div_mod::lemma_fundamental_div_mod(q, p as int);
                        vstd::arithmetic::div_mod::lemma_mod_bound(q, p as int);
                        assert((p as int) * (a as int) == base_c) by (nonlinear_arith)
                            requires
                                base_c == a as int * p as int,
                        ;
                        assert(q != base_c + t as int);
                    }
                }
                t += 1;
            }
            proof {
                assert forall|q: int| 0 <= q < sums@.len() implies #[trigger] sums@[q] as int
                    == cluster_coord_sum(
                    self.p_samples@,
                    p as int,
                    state.assignments@,
                    q / (p as int),
                    q % (p as int),
                    i as int + 1,
                ) by {
                    vstd::arithmetic::div_mod::lemma_mod_bound(q, p as int);
                    if q / (p as int) == a as int {
                        assert(q % (p as int) < p);
                    } else {
                        assert(state.assignments@[i as int] != q / (p as int));
                    }
                }
            }
            i += 1;
        }
        let mut j: usize = 0;
        while j < k
            invariant
                self.wf(),
                self.valid_state(*state),
                n == self.sample_cnt,
                n <= TOTAL_MAX,
                k == state.k,
                p == state.sample_dims,
                j <= k,
                state.k == orig.k,
                state.sample_dims == orig.sample_dims,
                state.distsum == orig.distsum,
                state.assignments@ == orig.assignments@,
                state.centroid_distances@ == orig.centroid_distances@,
                state.centroid_frequency@ == orig.centroid_frequency@,
                state.centroids@.len() == orig.centroids@.len(),
                sums@.len() == k as int * p as int,
                forall|i2: int| 0 <= i2 < n ==> #[trigger] state.assignments@[i2] < k,
                forall|j2: int|
                    0 <= j2 < k ==> #[trigger] state.centroid_frequency@[j2] as int
                        == cluster_count(state.assignments@, j2, n as int),
                forall|q: int|
                    0 <= q < sums@.len() ==> #[trigger] sums@[q] as int == cluster_coord_sum(
                        self.p_samples@,
                        p as int,
                        state.assignments@,
                        q / (p as int),
                        q % (p as int),
                        n as int,
                    ),
                forall|q: int|
                    0 <= q < state.centroids@.len() && q / (p as int) < j
                        && state.centroid_frequency@[q / (p as int)] > 0 ==> #[trigger] state.centroids@[q]
                        as int == cluster_coord_sum(
                        self.p_samples@,
                        p as int,
                        state.assignments@,
                        q / (p as int),
                        q % (p as int),
                        n as int,
                    ) / (state.centroid_frequency@[q / (p as int)] as int),
                forall|q: int|
                    0 <= q < state.centroids@.len() && (q / (p as int) >= j
                        || state.centroid_frequency@[q / (p as int)] == 0)
                        ==> #[trigger] state.centroids@[q] == orig.centroids@[q],
            decreases k - j,
        {
            let cnt = state.centroid_frequency[j];
            if cnt > 0 {
                proof {
                    assert(state.centroids@.len() == state.centroids.len());
                    lemma_row_in_bounds(state.centroids@.len() as int, p as int, k as int, j as int);
                    lemma_row_in_bounds(sums@.len() as int, p as int, k as int, j as int);
                }
                let base = j * p;
                let mut t: usize = 0;
                while t < p
                    invariant
                        self.wf(),
                        self.valid_state(*state),
                        n == self.sample_cnt,
                        n <= TOTAL_MAX,
                        k == state.k,
                        p == state.sample_dims,
                        j < k,
                        t <= p,
                        base == j as int * p as int,
                        base + p <= state.centroids@.len(),
                        cnt == state.centroid_frequency@[j as int],
                        cnt > 0,
                        state.k == orig.k,
                        state.sample_dims == orig.sample_dims,
                        state.distsum == orig.distsum,
                        state.assignments@ == orig.assignments@,
                        state.centroid_distances@ == orig.centroid_distances@,
                        state.centroid_frequency@ == orig.centroid_frequency@,
                        state.centroids@.len() == orig.centroids@.len(),
                        sums@.len() == k as int * p as int,
                        forall|i2: int| 0 <= i2 < n ==> #[trigger] state.assignments@[i2] < k,
                        forall|j2: int|
                            0 <= j2 < k ==> #[trigger] state.centroid_frequency@[j2] as int
                                == cluster_count(state.assignments@, j2, n as int),
                        forall|q: int|
                            0 <= q < sums@.len() ==> #[trigger] sums@[q] as int
                                == cluster_coord_sum(
                                self.p_samples@,
                                p as int,
                                state.assignments@,
                                q / (p as int),
                                q % (p as int),
                                n as int,
                            ),
                        forall|q: int|
                            0 <= q < state.centroids@.len() && (q / (p as int) < j || (q / (
                            p as int) == j as int && q % (p as int) < t))
                                && state.centroid_frequency@[q / (p as int)] > 0
                                ==> #[trigger] state.centroids@[q] as int == cluster_coord_sum(
                                self.p_samples@,
                                p as int,
                                state.assignments@,
                                q / (p as int),
                                q % (p as int),
                                n as int,
                            ) / (state.centroid_frequency@[q / (p as int)] as int),
                        forall|q: int|
                            0 <= q < state.centroids@.len() && (q / (p as int) > j as int || (q / (
                            p as int) == j as int && q % (p as int) >= t)
                                || state.centroid_frequency@[q / (p as int)] == 0)
                                ==> #[trigger] state.centroids@[q] == orig.centroids@[q],
                        coords_bounded(state.centroids@),
                    decreases p - t,
                {
                    let s_val = sums[base + t];
                    proof {
                        lemma_flat_index(p as int, j as int, t as int);
                        lemma_cluster_count_bounds(state.assignments@, j as int, n as int);
                        lemma_cluster_sum_bound(
                            self.p_samples@,
                            p as int,
                            state.assignments@,
                            j as int,
                            t as int,
                            n as int,
                        );
                        assert(cluster_count(state.assignments@, j as int, n as int) * COORD_MAX
                            <= TOTAL_MAX as int * COORD_MAX) by (nonlinear_arith)
                            requires
                                cluster_count(state.assignments@, j as int, n as int)
                                    <= TOTAL_MAX as int,
                        ;
                        lemma_div_floor_bound(
                            s_val as int,
                            cnt as int,
                            COORD_MAX as int,
                        );
                    }
                    let m = div_floor(s_val, cnt);
                    state.centroids[base + t] = m;
                    proof {
                        let ghost t_new = t as int + 1;
                        assert forall|q: int|
                            0 <= q < state.centroids@.len() && (q / (p as int) < j || (q / (
                            p as int) == j as int && q % (p as int) < t_new))
                                && state.centroid_frequency@[q / (p as int)] > 0
                                implies #[trigger] state.centroids@[q] as int
                            == cluster_coord_sum(
                            self.p_samples@,
                            p as int,
                            state.assignments@,
                            q / (p as int),
                            q % (p as int),
                            n as int,
                        ) / (state.centroid_frequency@[q / (p as int)] as int) by {
                            vstd::arithmetic::div_mod::lemma_fundamental_div_mod(q, p as int);
                            vstd::arithmetic::div_mod::lemma_mod_bound(q, p as int);
                            assert((p as int) * (j as int) == base) by (nonlinear_arith)
                                requires
                                    base == j as int * p as int,
                            ;
                            if q / (p as int) == j as int && q % (p as int) == t as int {
                                assert(q == base + t as int);
                            } else {
                                assert(q != base + t as int);
                            }
                        }
                        assert forall|q: int|
                            0 <= q < state.centroids@.len() && (q / (p as int) > j as int || (q / (
                            p as int) == j as int && q % (p as int) >= t_new)
                                || state.centroid_frequency@[q / (p as int)] == 0)
                                implies #[trigger] state.centroids@[q] == orig.centroids@[q] by {
                            vstd::arithmetic::div_mod::lemma_fundamental_div_mod(q, p as int);
                            vstd::arithmetic::div_mod::lemma_mod_bound(q, p as int);
                            assert((p as int) * (j as int) == base) by (nonlinear_arith)
                                requires
                                    base == j as int * p as int,
                            ;
                            assert(q != base + t as int);
                        }
                    }
                    t += 1;
                }
            }
            proof {
                assert forall|q: int|
                    0 <= q < state.centroids@.len() && q / (p as int) < j as int + 1
                        && state.centroid_frequency@[q / (p as int)] > 0
                        implies #[trigger] state.centroids@[q] as int == cluster_coord_sum(
                    self.p_samples@,
                    p as int,
                    state.assignments@,
                    q / (p as int),
                    q % (p as int),
                    n as int,
                ) / (state.centroid_frequency@[q / (p as int)] as int) by {
                    vstd::arithmetic::div_mod::lemma_mod_bound(q, p as int);
                }
            }
            j += 1;
        }
        proof {
            assert forall|j2: int|
                0 <= j2 < state.k && cluster_count(orig.assignments@, j2, n as int) == 0
                    implies #[trigger] state.spec_centroid_row(j2) == orig.spec_centroid_row(
                j2,
            ) by {
                lemma_row_in_bounds(state.centroids@.len() as int, p as int, k as int, j2);
                assert forall|t2: int| 0 <= t2 < p implies #[trigger] state.spec_centroid_row(j2)[t2]
                    == orig.spec_centroid_row(j2)[t2] by {
                    lemma_flat_index(p as int, j2, t2);
                    assert(state.centroids@[j2 * (p as int) + t2] == orig.centroids@[j2 * (
                    p as int) + t2]);
                }
                assert(state.spec_centroid_row(j2) =~= orig.spec_centroid_row(j2));
            }
            assert forall|j2: int, t2: int|
                0 <= j2 < state.k && 0 <= t2 < p && cluster_count(orig.assignments@, j2, n as int)
                    > 0 implies #[trigger] state.spec_centroid_row(j2)[t2] == cluster_coord_sum(
                self.p_samples@,
                p as int,
                orig.assignments@,
                j2,
                t2,
                n as int,
            ) / cluster_count(orig.assignments@, j2, n as int) by {
                lemma_row_in_bounds(state.centroids@.len() as int, p as int, k as int, j2);
                lemma_flat_index(p as int, j2, t2);
                assert(state.centroids@[j2 * (p as int) + t2] as int == cluster_coord_sum(
                    self.p_samples@,
                    p as int,
                    state.assignments@,
                    j2,
                    t2,
                    n as int,
                ) / (state.centroid_frequency@[j2] as int));
            }
        }
    }
}

impl KMeans {
    /// Full-batch Lloyd clustering: place `k` initial centroids with `init`,
    /// then iterate (recompute means, reassign) up to `max_iter` times or
    /// until the early-stop policy fires. The returned state is fully
    /// consistent: every assignment names the nearest centroid, every
    /// distance entry is the minimum squared distance, the distance sum is
    /// their total, and the point counts match the assignments. Rejects
    /// `k == 0`, `k` above the sample count, and a centroid matrix over
    /// `TOTAL_MAX` elements.
    pub fn kmeans_lloyd(
        &self,
        k: usize,
        max_iter: usize,
        init: Initializer,
        config: &mut KMeansConfig,
    ) -> (r: Result<KMeansState, KMeansError>)
        requires
            self.wf(),
        ensures
            r is Ok <==> (1 <= k <= self.sample_cnt && k as int * self.p_sample_dims as int
                <= TOTAL_MAX as int),
            r matches Err(e) ==> {
                &&& (e == KMeansError::InvalidClusterCount <==> (k == 0 || k > self.sample_cnt))
                &&& (e == KMeansError::TooLarge <==> (1 <= k <= self.sample_cnt && k as int
                    * self.p_sample_dims as int > TOTAL_MAX as int))
            },
            r matches Ok(state) ==> {
                &&& self.valid_state(state)
                &&& state.k == k
                &&& self.state_consistent(state)
                &&& forall|j: int|
                    0 <= j < k ==> #[trigger] state.centroid_frequency@[j] as int == cluster_count(
                        state.assignments@,
                        j,
                        self.sample_cnt as int,
                    )
            },
    {
        if k == 0 || k > self.sample_cnt {
            return Err(KMeansError::InvalidClusterCount);
        }
        let p = self.p_sample_dims;
        if k > TOTAL_MAX / p {
            proof {
                vstd::arithmetic::div_mod::lemma_fundamental_div_mod(TOTAL_MAX as int, p as int);
                vstd::arithmetic::div_mod::lemma_mod_bound(TOTAL_MAX as int, p as int);
                assert(k as int * p as int > TOTAL_MAX as int) by (nonlinear_arith)
                    requires
                        k as int >= TOTAL_MAX as int / p as int + 1,
                        TOTAL_MAX as int == (p as int) * (TOTAL_MAX as int / p as int)
                            + (TOTAL_MAX as int) % (p as int),
                        (TOTAL_MAX as int) % (p as int) < p as int,
                        p >= 1,
                ;
            }
            return Err(KMeansError::TooLarge);
        }
        proof {
            vstd::arithmetic::div_mod::lemma_fundamental_div_mod(TOTAL_MAX as int, p as int);
            vstd::arithmetic::div_mod::lemma_mod_bound(TOTAL_MAX as int, p as int);
            assert(k as int * p as int <= TOTAL_MAX as int) by (nonlinear_arith)
                requires
                    k as int <= TOTAL_MAX as int / p as int,
                    TOTAL_MAX as int == (p as int) * (TOTAL_MAX as int / p as int)
                        + (TOTAL_MAX as int) % (p as int),
                    (TOTAL_MAX as int) % (p as int) >= 0,
                    p >= 1,
            ;
        }
        let mut state = KMeansState::new(self.sample_cnt, p, k);
        match init {
            Initializer::RandomSample => crate::inits::randomsample::calculate(
                self,
                &mut state,
                config,
            ),
            Initializer::KMeansPlusPlus => crate::inits::kmeanplusplus::calculate(
                self,
                &mut state,
                config,
            ),
        }
        self.update_cluster_assignments(&mut state, None);
        self.update_cluster_frequencies(&mut state);
        let mut history: Vec<u64> = Vec::new();
        let mut it: usize = 0;
        while it < max_iter
            invariant
                self.wf(),
                self.valid_state(state),
                state.k == k,
                it <= max_iter,
                self.state_consistent(state),
                forall|j: int|
                    0 <= j < k ==> #[trigger] state.centroid_frequency@[j] as int == cluster_count(
                        state.assignments@,
                        j,
                        self.sample_cnt as int,
                    ),
            decreases max_iter - it,
        {
            self.update_centroid_means(&mut state);
            self.update_cluster_assignments(&mut state, None);
            self.update_cluster_frequencies(&mut state);
            history.push(state.distsum);
            if config.abort_strategy.should_abort(&history) {
                break;
            }
            it += 1;
        }
        Ok(state)
    }
}

} // verus!
