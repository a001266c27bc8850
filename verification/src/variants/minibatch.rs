//! Stochastic minibatch iteration: each round draws a batch of sample
//! indices uniformly at random (with replacement), assigns just those
//! samples to their nearest centroids, and moves every touched centroid
//! toward the batch mean of its samples with a learning rate that decays as
//! its accumulated point count grows.

use vstd::prelude::*;
use crate::api::{Initializer, KMeans, KMeansConfig, KMeansError, KMeansState};
use crate::helpers::{cluster_count, coords_bounded, div_floor, lemma_row_in_bounds};
use crate::memory::{AlignedFloatVec, COORD_MAX, TOTAL_MAX};
use crate::random::rand_below;

verus! {

/// The online centroid update for one coordinate: move `c` toward the batch
/// mean `batch_sum / bc` with learning rate `bc / pc_new`, every division
/// taken as the mathematical (floor) division.
pub open spec fn spec_online_update(c: int, batch_sum: int, bc: int, pc_new: int) -> int {
    c + ((batch_sum / bc - c) * bc) / pc_new
}

/// A centroid with no prior weight lands exactly on its batch mean: the
/// online update whose new point count is the batch count alone (the prior
/// count was zero) returns the plain mean of the batch — the same
/// centroid-mean formula the full-batch Lloyd step applies to its clusters.
pub proof fn lemma_first_batch_update_is_batch_mean(c: int, batch_sum: int, bc: int)
    requires
        bc >= 1,
    ensures
        spec_online_update(c, batch_sum, bc, bc) == batch_sum / bc,
{
    let bm = batch_sum / bc;
    vstd::arithmetic::div_mod::lemma_div_multiples_vanish(bm - c, bc);
    assert((bm - c) * bc == bc * (bm - c)) by (nonlinear_arith);
}

/// One online centroid-coordinate update. The result stays between the old
/// coordinate and the batch mean, so it keeps the coordinate bound.
fn online_update(c: i64, batch_sum: i64, bc: usize, pc_new: usize) -> (r: i64)
    requires
        1 <= bc <= pc_new,
        pc_new <= usize::MAX,
        bc <= TOTAL_MAX,
        -COORD_MAX <= c <= COORD_MAX,
        -(bc as int) * COORD_MAX <= batch_sum as int <= (bc as int) * COORD_MAX,
    ensures
        r as int == spec_online_update(c as int, batch_sum as int, bc as int, pc_new as int),
        -COORD_MAX <= r <= COORD_MAX,
{
    proof {
        crate::helpers::lemma_div_floor_bound(batch_sum as int, bc as int, COORD_MAX as int);
        assert((bc as int) * COORD_MAX <= TOTAL_MAX as int * COORD_MAX) by (nonlinear_arith)
            requires
                bc as int <= TOTAL_MAX as int,
        ;
    }
    let bm = div_floor(batch_sum, bc);
    proof {
        let x = bm as int - c as int;
        assert(-2 * COORD_MAX <= x <= 2 * COORD_MAX);
        assert(-2 * (COORD_MAX as int) * (bc as int) <= x * (bc as int) <= 2 * (COORD_MAX as int)
            * (bc as int)) by (nonlinear_arith)
            requires
                -2 * (COORD_MAX as int) <= x <= 2 * (COORD_MAX as int),
                1 <= bc as int,
        ;
        assert(2 * (COORD_MAX as int) * (bc as int) <= 2 * (COORD_MAX as int) * (
        TOTAL_MAX as int)) by (nonlinear_arith)
            requires
                1 <= bc as int <= TOTAL_MAX as int,
                COORD_MAX as int >= 0,
        ;
        assert(-(2 * (COORD_MAX as int) * (bc as int)) == -2 * (COORD_MAX as int) * (bc as int))
            by (nonlinear_arith);
    }
    let step_num = (bm - c) * (bc as i64);
    proof {
        let x = bm as int - c as int;
        if x >= 0 {
            assert(x * (bc as int) <= x * (pc_new as int)) by (nonlinear_arith)
                requires
                    x >= 0,
                    bc as int <= pc_new as int,
            ;
            vstd::arithmetic::div_mod::lemma_div_is_ordered(
                x * (bc as int),
                x * (pc_new as int),
                pc_new as int,
            );
            assert(x * (pc_new as int) == (pc_new as int) * x) by (nonlinear_arith);
            vstd::arithmetic::div_mod::lemma_div_multiples_vanish(x, pc_new as int);
            assert(x * (bc as int) >= 0) by (nonlinear_arith)
                requires
                    x >= 0,
                    bc as int >= 1,
            ;
            vstd::arithmetic::div_mod::lemma_div_is_ordered(0, x * (bc as int), pc_new as int);
        } else {
            assert(x * (bc as int) >= x * (pc_new as int)) by (nonlinear_arith)
                requires
                    x < 0,
                    bc as int <= pc_new as int,
            ;
            vstd::arithmetic::div_mod::lemma_div_is_ordered(
                x * (pc_new as int),
                x * (bc as int),
                pc_new as int,
            );
            assert(x * (pc_new as int) == (pc_new as int) * x) by (nonlinear_arith);
            vstd::arithmetic::div_mod::lemma_div_multiples_vanish(x, pc_new as int);
            assert(x * (bc as int) <= 0) by (nonlinear_arith)
                requires
                    x < 0,
                    bc as int >= 1,
            ;
            vstd::arithmetic::div_mod::lemma_div_is_ordered(x * (bc as int), 0, pc_new as int);
        }
    }
    let delta = div_floor(step_num, pc_new);
    c + delta
}

impl KMeans {
    /// Stochastic minibatch clustering: place `k` initial centroids with
    /// `init`, then for up to `max_iter` rounds draw `batch_size` sample
    /// indices uniformly at random (with replacement), assign those samples,
    /// and move every centroid touched by the batch toward its batch mean
    /// with learning rate `batch count / accumulated point count`. A final
    /// full kernel pass makes the returned state fully consistent, with
    /// point counts recomputed from the final assignments. Rejects `k == 0`,
    /// `k` above the sample count, a batch size of zero, and matrices or
    /// batches over `TOTAL_MAX` elements.
    pub fn kmeans_minibatch(
        &self,
        batch_size: usize,
        k: usize,
        max_iter: usize,
        init: Initializer,
        config: &mut KMeansConfig,
    ) -> (r: Result<KMeansState, KMeansError>)
        requires
            self.wf(),
            max_iter as int * batch_size as int + self.sample_cnt as int <= usize::MAX as int,
        ensures
            r is Ok <==> (1 <= k <= self.sample_cnt && k as int * self.p_sample_dims as int
                <= TOTAL_MAX as int && 1 <= batch_size <= TOTAL_MAX),
            r matches Err(e) ==> {
                &&& (e == KMeansError::InvalidClusterCount <==> (k == 0 || k > self.sample_cnt))
                &&& (e == KMeansError::InvalidBatchSize <==> (1 <= k <= self.sample_cnt && (
                batch_size == 0 || batch_size > TOTAL_MAX)))
                &&& (e == KMeansError::TooLarge <==> (1 <= k <= self.sample_cnt && 1 <= batch_size
                    <= TOTAL_MAX && k as int * self.p_sample_dims as int > TOTAL_MAX as int))
            },
            r matches Ok(state) ==> {
                &&& self.valid_state(state)
                &&& state.k == k
                &&& self.state_consistent(state)
                &&& forall|j: int|
                    0 <= j < k ==> #[trigger] state.centroid_frequency@[j] as int == cluster_count(
                        state.assignments@,
                        j,
                        self.sample_cnt as int,
                    )
            },
    {
        if k == 0 || k > self.sample_cnt {
            return Err(KMeansError::InvalidClusterCount);
        }
        if batch_size == 0 || batch_size > TOTAL_MAX {
            return Err(KMeansError::InvalidBatchSize);
        }
        let p = self.p_sample_dims;
        if k > TOTAL_MAX / p {
            proof {
                vstd::arithmetic::div_mod::lemma_fundamental_div_mod(TOTAL_MAX as int, p as int);
                vstd::arithmetic::div_mod::lemma_mod_bound(TOTAL_MAX as int, p as int);
                assert(k as int * p as int > TOTAL_MAX as int) by (nonlinear_arith)
                    requires
                        k as int >= TOTAL_MAX as int / p as int + 1,
                        TOTAL_MAX as int == (p as int) * (TOTAL_MAX as int / p as int)
                            + (TOTAL_MAX as int) % (p as int),
                        (TOTAL_MAX as int) % (p as int) < p as int,
                        p >= 1,
                ;
            }
            return Err(KMeansError::TooLarge);
        }
        proof {
            vstd::arithmetic::div_mod::lemma_fundamental_div_mod(TOTAL_MAX as int, p as int);
            vstd::arithmetic::div_mod::lemma_mod_bound(TOTAL_MAX as int, p as int);
            assert(k as int * p as int <= TOTAL_MAX as int) by (nonlinear_arith)
                requires
                    k as int <= TOTAL_MAX as int / p as int,
                    TOTAL_MAX as int == (p as int) * (TOTAL_MAX as int / p as int)
                        + (TOTAL_MAX as int) % (p as int),
                    (TOTAL_MAX as int) % (p as int) >= 0,
                    p >= 1,
            ;
        }
        let mut state = KMeansState::new(self.sample_cnt, p, k);
        match init {
            Initializer::RandomSample => crate::inits::randomsample::calculate(
                self,
                &mut state,
                config,
            ),
            Initializer::KMeansPlusPlus => crate::inits::kmeanplusplus::calculate(
                self,
                &mut state,
                config,
            ),
        }
        let n = self.sample_cnt;
        let mut it: usize = 0;
        while it < max_iter
            invariant
                self.wf(),
                self.valid_state(state),
                state.k == k,
                p == state.sample_dims,
                n == self.sample_cnt,
                1 <= batch_size <= TOTAL_MAX,
                it <= max_iter,
                max_iter as int * batch_size as int + n as int <= usize::MAX as int,
                forall|j: int|
                    0 <= j < k ==> #[trigger] state.centroid_frequency@[j] as int <= n as int + it
                        as int * batch_size as int,
            decreases max_iter - it,
        {
            let mut batch_counts = crate::api::filled_usize(k, 0);
            proof {
                crate::helpers::lemma_mul_keeps_mod_zero(
                    k as int,
                    p as int,
                    crate::memory::LANES as int,
                );
            }
            let mut batch_sums: Vec<i64> = AlignedFloatVec::new(k * p);
            let mut b: usize = 0;
            while b < batch_size
                invariant
                    self.wf(),
                    self.valid_state(state),
                    state.k == k,
                    p == state.sample_dims,
                    n == self.sample_cnt,
                    1 <= batch_size <= TOTAL_MAX,
                    b <= batch_size,
                    batch_counts@.len() == k,
                    batch_sums@.len() == k as int * p as int,
                    forall|j: int| 0 <= j < k ==> #[trigger] batch_counts@[j] <= b,
                    forall|q: int|
                        0 <= q < batch_sums@.len() ==> -(batch_counts@[q / (p as int)] as int)
                            * COORD_MAX <= #[trigger] batch_sums@[q] as int <= (batch_counts@[q / (
                        p as int)] as int) * COORD_MAX,
                decreases batch_size - b,
            {
                let idx = rand_below(&mut config.rnd, n);
                let pair = self.nearest_centroid(&state, idx);
                let bj = pair.0;
                let c0 = batch_counts[bj];
                batch_counts[bj] = c0 + 1;
                proof {
                    assert(batch_sums@.len() == batch_sums.len());
                    assert(self.p_samples@.len() == self.p_samples.len());
                    lemma_row_in_bounds(batch_sums@.len() as int, p as int, k as int, bj as int);
                    lemma_row_in_bounds(
                        self.p_samples@.len() as int,
                        p as int,
                        n as int,
                        idx as int,
                    );
                    assert forall|q: int|
                        0 <= q < batch_sums@.len() && bj as int * (p as int) <= q < bj as int * (
                    p as int) + p implies -(batch_counts@[q / (p as int)] as int) * COORD_MAX
                        + COORD_MAX <= #[trigger] batch_sums@[q] as int <= (batch_counts@[q / (
                    p as int)] as int) * COORD_MAX - COORD_MAX by {
                        crate::helpers::lemma_flat_index(p as int, bj as int, q - bj as int * (
                        p as int));
                        assert(q / (p as int) == bj as int);
                        assert((c0 as int + 1) * COORD_MAX == c0 as int * COORD_MAX + COORD_MAX)
                            by (nonlinear_arith);
                    }
                    assert forall|q: int|
                        0 <= q < batch_sums@.len() && !(bj as int * (p as int) <= q < bj as int * (
                    p as int) + p) implies -(batch_counts@[q / (p as int)] as int) * COORD_MAX
                        <= #[trigger] batch_sums@[q] as int <= (batch_counts@[q / (
                    p as int)] as int) * COORD_MAX by {
                        vstd::arithmetic::div_mod::lemma_fundamental_div_mod(q, p as int);
                        vstd::arithmetic::div_mod::lemma_mod_bound(q, p as int);
                        assert(q / (p as int) < k as int) by (nonlinear_arith)
                            requires
                                q == (p as int) * (q / (p as int)) + q % (p as int),
                                0 <= q % (p as int),
                                q < k as int * (p as int),
                                p as int >= 1,
                        ;
                        assert(0 <= q / (p as int)) by (nonlinear_arith)
                            requires
                                q == (p as int) * (q / (p as int)) + q % (p as int),
                                q % (p as int) < p as int,
                                q >= 0,
                                p as int >= 1,
                        ;
                        if q / (p as int) == bj as int {
                            assert(q == (p as int) * (bj as int) + q % (p as int));
                            assert((p as int) * (bj as int) == bj as int * (p as int))
                                by (nonlinear_arith);
                            assert(false);
                        }
                    }
                }
                let base_c = bj * p;
                let base_s = idx * p;
                let mut t: usize = 0;
                while t < p
                    invariant
                        self.wf(),
                        self.valid_state(state),
                        p == state.sample_dims,
                        n == self.sample_cnt,
                        k == state.k,
                        b < batch_size,
                        batch_size <= TOTAL_MAX,
                        t <= p,
                        bj < k,
                        idx < n,
                        base_c == bj as int * p as int,
                        base_s == idx as int * p as int,
                        base_c + p <= batch_sums@.len(),
                        base_s + p <= self.p_samples@.len(),
                        batch_counts@.len() == k,
                        batch_sums@.len() == k as int * p as int,
                        forall|j: int| 0 <= j < k ==> #[trigger] batch_counts@[j] <= b + 1,
                        forall|q: int|
                            0 <= q < batch_sums@.len() && base_c <= q < base_c + t
                                ==> -(batch_counts@[q / (p as int)] as int) * COORD_MAX
                                <= #[trigger] batch_sums@[q] as int <= (batch_counts@[q / (
                            p as int)] as int) * COORD_MAX,
                        forall|q: int|
                            0 <= q < batch_sums@.len() && base_c + t <= q < base_c + p
                                ==> -(batch_counts@[q / (p as int)] as int) * COORD_MAX + COORD_MAX
                                <= #[trigger] batch_sums@[q] as int <= (batch_counts@[q / (
                            p as int)] as int) * COORD_MAX - COORD_MAX,
                        forall|q: int|
                            0 <= q < batch_sums@.len() && !(base_c <= q < base_c + p)
                                ==> -(batch_counts@[q / (p as int)] as int) * COORD_MAX
                                <= #[trigger] batch_sums@[q] as int <= (batch_counts@[q / (
                            p as int)] as int) * COORD_MAX,
                    decreases p - t,
                {
                    let cur = batch_sums[base_c + t];
                    let v = self.p_samples[base_s + t];
                    proof {
                        crate::helpers::lemma_flat_index(p as int, bj as int, t as int);
                        assert(-COORD_MAX <= v <= COORD_MAX);
                        assert((batch_counts@[bj as int] as int) * COORD_MAX <= TOTAL_MAX as int
                            * COORD_MAX) by (nonlinear_arith)
                            requires
                                0 <= batch_counts@[bj as int] as int <= TOTAL_MAX as int,
                                COORD_MAX as int >= 0,
                        ;
                    }
                    batch_sums[base_c + t] = cur + v;
                    proof {
                        assert forall|q: int|
                            0 <= q < batch_sums@.len() && base_c + t as int + 1 <= q < base_c + p
                                implies -(batch_counts@[q / (p as int)] as int) * COORD_MAX
                            + COORD_MAX <= #[trigger] batch_sums@[q] as int <= (batch_counts@[q / (
                        p as int)] as int) * COORD_MAX - COORD_MAX by {
                            assert(q != base_c + t as int);
                        }
                    }
                    t += 1;
                }
                b += 1;
            }
            let ghost pre_update = state;
            let mut j: usize = 0;
            while j < k
                invariant
                    self.wf(),
                    self.valid_state(state),
                    state.k == k,
                    p == state.sample_dims,
                    n == self.sample_cnt,
                    1 <= batch_size <= TOTAL_MAX,
                    it < max_iter,
                    max_iter as int * batch_size as int + n as int <= usize::MAX as int,
                    j <= k,
                    batch_counts@.len() == k,
                    batch_sums@.len() == k as int * p as int,
                    state.assignments@ == pre_update.assignments@,
                    state.centroid_distances@ == pre_update.centroid_distances@,
                    state.distsum == pre_update.distsum,
                    forall|j2: int| 0 <= j2 < k ==> #[trigger] batch_counts@[j2] <= batch_size,
                    forall|q: int|
                        0 <= q < batch_sums@.len() ==> -(batch_counts@[q / (p as int)] as int)
                            * COORD_MAX <= #[trigger] batch_sums@[q] as int <= (batch_counts@[q / (
                        p as int)] as int) * COORD_MAX,
                    forall|j2: int|
                        j <= j2 < k ==> #[trigger] state.centroid_frequency@[j2] as int <= n as int
                            + it as int * batch_size as int,
                    forall|j2: int|
                        0 <= j2 < j ==> #[trigger] state.centroid_frequency@[j2] as int <= n as int
                            + (it as int + 1) * batch_size as int,
                decreases k - j,
            {
                let bc = batch_counts[j];
                proof {
                    assert((it as int + 1) * batch_size as int <= max_iter as int
                        * batch_size as int) by (nonlinear_arith)
                        requires
                            it as int + 1 <= max_iter as int,
                            batch_size as int >= 0,
                    ;
                    assert((it as int + 1) * batch_size as int == it as int * batch_size as int
                        + batch_size as int) by (nonlinear_arith);
                }
                if bc > 0 {
                    let pc_new = state.centroid_frequency[j] + bc;
                    state.centroid_frequency[j] = pc_new;
                    proof {
                        assert(state.centroids@.len() == state.centroids.len());
                        lemma_row_in_bounds(
                            state.centroids@.len() as int,
                            p as int,
                            k as int,
                            j as int,
                        );
                        lemma_row_in_bounds(batch_sums@.len() as int, p as int, k as int, j as int);
                    }
                    let base = j * p;
                    let mut t: usize = 0;
                    while t < p
                        invariant
                            self.wf(),
                            self.valid_state(state),
                            state.k == k,
                            p == state.sample_dims,
                            n == self.sample_cnt,
                            t <= p,
                            j < k,
                            1 <= bc <= batch_size,
                            batch_size <= TOTAL_MAX,
                            bc <= pc_new,
                            pc_new <= usize::MAX,
                            base == j as int * p as int,
                            base + p <= state.centroids@.len(),
                            base + p <= batch_sums@.len(),
                            batch_sums@.len() == k as int * p as int,
                            bc == batch_counts@[j as int],
                            state.assignments@ == pre_update.assignments@,
                            state.centroid_distances@ == pre_update.centroid_distances@,
                            state.distsum == pre_update.distsum,
                            state.centroid_frequency@.len() == k,
                            it < max_iter,
                            max_iter as int * batch_size as int + n as int <= usize::MAX as int,
                            forall|j2: int|
                                j < j2 < k ==> #[trigger] state.centroid_frequency@[j2] as int
                                    <= n as int + it as int * batch_size as int,
                            forall|j2: int|
                                0 <= j2 <= j ==> #[trigger] state.centroid_frequency@[j2] as int
                                    <= n as int + (it as int + 1) * batch_size as int,
                            forall|q: int|
                                0 <= q < batch_sums@.len() ==> -(batch_counts@[q / (
                                p as int)] as int) * COORD_MAX <= #[trigger] batch_sums@[q] as int
                                    <= (batch_counts@[q / (p as int)] as int) * COORD_MAX,
                        decreases p - t,
                    {
                        let s_val = batch_sums[base + t];
                        let c = state.centroids[base + t];
                        proof {
                            crate::helpers::lemma_flat_index(p as int, j as int, t as int);
                            assert(-COORD_MAX <= c <= COORD_MAX);
                        }
                        let upd = online_update(c, s_val, bc, pc_new);
                        state.centroids[base + t] = upd;
                        t += 1;
                    }
                }
                j += 1;
            }
            it += 1;
        }
        self.update_cluster_assignments(&mut state, None);
        self.update_cluster_frequencies(&mut state);
        Ok(state)
    }
}

} // verus!
