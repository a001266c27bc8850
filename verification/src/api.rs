//! The engine instance, its per-run working state, and the nearest-centroid
//! assignment kernel shared by every algorithm variant.

use vstd::prelude::*;
use crate::abort_strategy::AbortStrategy;
use crate::helpers::{
    coords_bounded, dist_sq, lemma_flat_index, lemma_distsum_fits, lemma_mul_keeps_mod_zero,
    lemma_padded_width, lemma_row_in_bounds, lemma_rows_disjoint, min2, min_dist_upto,
    padded_width, spec_row, sum_dists, DIST_PER_DIM_MAX,
};
use crate::memory::{AlignedFloatVec, COORD_MAX, LANES, TOTAL_MAX};

verus! {

/// Why a run could not be set up.
#[derive(Clone, Copy, PartialEq, Eq, Debug)]
pub enum KMeansError {
    /// The sample buffer length is not `sample_cnt * sample_dims`, or one of
    /// the two counts is zero.
    InvalidShape,
    /// A matrix would exceed `TOTAL_MAX` elements.
    TooLarge,
    /// A coordinate lies outside `[-COORD_MAX, COORD_MAX]`.
    CoordinateOutOfRange,
    /// The cluster count is zero or exceeds the sample count.
    InvalidClusterCount,
    /// The batch size is zero.
    InvalidBatchSize,
}

/// The centroid-initialization strategies an optimizer can start from.
#[derive(Clone, Copy, PartialEq, Eq, Debug)]
pub enum Initializer {
    /// Draw every centroid uniformly at random from the samples.
    RandomSample,
    /// Weighted farthest-point sampling (k-means++).
    KMeansPlusPlus,
}

/// Per-invocation run parameters: the random source, consumed by exclusive
/// mutable access for the duration of one invocation, and the early-stop
/// policy.
pub struct KMeansConfig {
    pub rnd: rand::rngs::StdRng,
    pub abort_strategy: AbortStrategy,
}

impl KMeansConfig {
    pub fn new(rnd: rand::rngs::StdRng, abort_strategy: AbortStrategy) -> (r: KMeansConfig)
        ensures
            r.abort_strategy == abort_strategy,
    {
        KMeansConfig { rnd, abort_strategy }
    }
}

/// An engine instance: the immutable flat row-major sample matrix, stored
/// with rows padded up to a whole number of lanes (padding is zero).
#[derive(Debug)]
pub struct KMeans {
    pub p_samples: Vec<i64>,
    pub sample_cnt: usize,
    pub sample_dims: usize,
    pub p_sample_dims: usize,
}

/// The mutable working set of one invocation: centroid matrix, assignment
/// vector, per-sample distance vector, their running sum, and per-centroid
/// point counts.
#[derive(Debug)]
pub struct KMeansState {
    pub k: usize,
    pub distsum: u64,
    pub centroids: Vec<i64>,
    pub centroid_frequency: Vec<usize>,
    pub assignments: Vec<usize>,
    pub centroid_distances: Vec<u64>,
    pub sample_dims: usize,
}

impl KMeans {
    /// Structural invariant of an engine instance.
    pub open spec fn wf(self) -> bool {
        &&& self.sample_cnt >= 1
        &&& self.sample_dims >= 1
        &&& self.p_sample_dims as int == padded_width(self.sample_dims as int)
        &&& self.sample_dims <= self.p_sample_dims
        &&& self.p_sample_dims as int % (LANES as int) == 0
        &&& self.p_samples@.len() == self.sample_cnt as int * self.p_sample_dims as int
        &&& self.sample_cnt as int * self.p_sample_dims as int <= TOTAL_MAX as int
        &&& coords_bounded(self.p_samples@)
    }

    /// The padded coordinate row of sample `i`.
    pub open spec fn spec_sample_row(self, i: int) -> Seq<i64> {
        spec_row(self.p_samples@, self.p_sample_dims as int, i)
    }

    /// Whether `state` is a well-formed working set for this instance.
    pub open spec fn valid_state(self, state: KMeansState) -> bool {
        &&& state.wf(self.sample_cnt as int)
        &&& state.sample_dims == self.p_sample_dims
    }

    /// The distance vector holds, for every sample, the minimum squared
    /// distance to the first `k` centroids.
    pub open spec fn distances_consistent(self, state: KMeansState, k: int) -> bool {
        forall|i: int|
            0 <= i < self.sample_cnt ==> #[trigger] state.centroid_distances@[i] as int
                == min_dist_upto(
                self.spec_sample_row(i),
                state.centroids@,
                state.sample_dims as int,
                k,
            )
    }

    /// Every assignment entry names a centroid whose squared distance is the
    /// sample's distance entry.
    pub open spec fn assignments_consistent(self, state: KMeansState) -> bool {
        forall|i: int|
            0 <= i < self.sample_cnt ==> #[trigger] state.assignments@[i] < state.k
                && state.centroid_distances@[i] as int == dist_sq(
                self.spec_sample_row(i),
                state.spec_centroid_row(state.assignments@[i] as int),
            )
    }

    /// Centroid row `j` of `state` is a verbatim sample row.
    pub open spec fn row_from_samples(self, state: KMeansState, j: int) -> bool {
        exists|i: int|
            0 <= i < self.sample_cnt && state.spec_centroid_row(j) == #[trigger] self.spec_sample_row(i)
    }

    /// Full consistency after a full kernel pass: distances are minima over
    /// all `k` centroids, assignments attain them, and the distance sum is
    /// their total.
    pub open spec fn state_consistent(self, state: KMeansState) -> bool {
        &&& self.distances_consistent(state, state.k as int)
        &&& self.assignments_consistent(state)
        &&& state.distsum as int == sum_dists(state.centroid_distances@)
    }
}

impl KMeansState {
    /// Structural invariant of a working set for `n` samples.
    pub open spec fn wf(self, n: int) -> bool {
        &&& self.k >= 1
        &&& self.sample_dims >= 1
        &&& self.sample_dims as int % (LANES as int) == 0
        &&& self.centroids@.len() == self.k as int * self.sample_dims as int
        &&& self.k as int * self.sample_dims as int <= TOTAL_MAX as int
        &&& self.assignments@.len() == n
        &&& self.centroid_distances@.len() == n
        &&& self.centroid_frequency@.len() == self.k as int
        &&& coords_bounded(self.centroids@)
    }

    /// The padded coordinate row of centroid `j`.
    pub open spec fn spec_centroid_row(self, j: int) -> Seq<i64> {
        spec_row(self.centroids@, self.sample_dims as int, j)
    }

    /// Every distance entry is at most one row's worth of squared distance,
    /// so their sum fits `u64`.
    pub open spec fn distances_bounded(self) -> bool {
        forall|i: int|
            0 <= i < self.centroid_distances@.len() ==> #[trigger] self.centroid_distances@[i]
                as int <= self.sample_dims as int * DIST_PER_DIM_MAX
    }
}

fn filled_u64(len: usize, value: u64) -> (r: Vec<u64>)
    ensures
        r@.len() == len,
        forall|i: int| 0 <= i < len ==> r@[i] == value,
{
    let mut v: Vec<u64> = Vec::new();
    while v.len() < len
        invariant
            v@.len() <= len,
            forall|i: int| 0 <= i < v@.len() ==> v@[i] == value,
        decreases len - v@.len(),
    {
        v.push(value);
    }
    v
}

pub(crate) fn filled_usize(len: usize, value: usize) -> (r: Vec<usize>)
    ensures
        r@.len() == len,
        forall|i: int| 0 <= i < len ==> r@[i] == value,
{
    let mut v: Vec<usize> = Vec::new();
    while v.len() < len
        invariant
            v@.len() <= len,
            forall|i: int| 0 <= i < v@.len() ==> v@[i] == value,
        decreases len - v@.len(),
    {
        v.push(value);
    }
    v
}

/// Squared Euclidean distance between `len`-element slices of two flat
/// buffers, accumulated in `u64`.
fn dist_sq_exec(a: &Vec<i64>, ao: usize, b: &Vec<i64>, bo: usize, len: usize) -> (r: u64)
    requires
        ao + len <= a@.len(),
        bo + len <= b@.len(),
        len <= TOTAL_MAX,
        coords_bounded(a@),
        coords_bounded(b@),
    ensures
        r as int == dist_sq(
            a@.subrange(ao as int, ao as int + len as int),
            b@.subrange(bo as int, bo as int + len as int),
        ),
        r as int <= len as int * DIST_PER_DIM_MAX,
{
    proof {
        assert(a@.len() == a.len());
        assert(b@.len() == b.len());
    }
    let mut acc: u64 = 0;
    let mut t: usize = 0;
    while t < len
        invariant
            ao + len <= a@.len(),
            bo + len <= b@.len(),
            ao + len <= usize::MAX,
            bo + len <= usize::MAX,
            len <= TOTAL_MAX,
            coords_bounded(a@),
            coords_bounded(b@),
            t <= len,
            acc as int == dist_sq(
                a@.subrange(ao as int, ao as int + t as int),
                b@.subrange(bo as int, bo as int + t as int),
            ),
            acc as int <= t as int * DIST_PER_DIM_MAX,
        decreases len - t,
    {
        let av = a[ao + t];
        let bv = b[bo + t];
        assert(-COORD_MAX <= av <= COORD_MAX);
        assert(-COORD_MAX <= bv <= COORD_MAX);
        let d = av - bv;
        assert(0 <= d * d <= DIST_PER_DIM_MAX) by (nonlinear_arith)
            requires
                -2 * (COORD_MAX as int) <= d <= 2 * (COORD_MAX as int),
        ;
        let sqv = d * d;
        assert((t as int + 1) * DIST_PER_DIM_MAX <= TOTAL_MAX as int * DIST_PER_DIM_MAX)
            by (nonlinear_arith)
            requires
                t as int + 1 <= TOTAL_MAX as int,
        ;
        assert((t as int + 1) * DIST_PER_DIM_MAX == t as int * DIST_PER_DIM_MAX
            + DIST_PER_DIM_MAX) by (nonlinear_arith);
        proof {
            let sa = a@.subrange(ao as int, ao as int + t as int + 1);
            let sb = b@.subrange(bo as int, bo as int + t as int + 1);
            assert(sa.drop_last() =~= a@.subrange(ao as int, ao as int + t as int));
            assert(sb.drop_last() =~= b@.subrange(bo as int, bo as int + t as int));
            assert(sa.last() == a@[ao as int + t as int]);
            assert(sb.last() == b@[bo as int + t as int]);
        }
        acc = acc + (sqv as u64);
        t += 1;
    }
    acc
}

impl KMeansState {
    /// A fresh working set: zeroed centroids, zero assignments and counts,
    /// and a distance vector saturated at `u64::MAX` ("no centroid
    /// considered yet").
    pub fn new(sample_cnt: usize, sample_dims: usize, k: usize) -> (r: KMeansState)
        requires
            sample_dims >= 1,
            sample_dims as int % (LANES as int) == 0,
            k >= 1,
            k as int * sample_dims as int <= TOTAL_MAX as int,
        ensures
            r.wf(sample_cnt as int),
            r.k == k,
            r.sample_dims == sample_dims,
            r.distsum == 0,
            forall|i: int| 0 <= i < sample_cnt ==> r.assignments@[i] == 0,
            forall|i: int| 0 <= i < sample_cnt ==> r.centroid_distances@[i] == u64::MAX,
            forall|q: int| 0 <= q < r.centroids@.len() ==> r.centroids@[q] == 0i64,
            forall|j: int| 0 <= j < k ==> r.centroid_frequency@[j] == 0,
    {
        proof {
            lemma_mul_keeps_mod_zero(k as int, sample_dims as int, LANES as int);
        }
        let centroids: Vec<i64> = AlignedFloatVec::new(k * sample_dims);
        let assignments = filled_usize(sample_cnt, 0);
        let centroid_distances = filled_u64(sample_cnt, u64::MAX);
        let centroid_frequency = filled_usize(k, 0);
        KMeansState { k, distsum: 0, centroids, centroid_frequency, assignments, centroid_distances, sample_dims }
    }

    /// Overwrite centroid row `j` with sample row `sample_idx`.
    pub fn set_centroid(&mut self, j: usize, kmean: &KMeans, sample_idx: usize)
        requires
            kmean.wf(),
            kmean.valid_state(*old(self)),
            j < old(self).k,
            sample_idx < kmean.sample_cnt,
        ensures
            kmean.valid_state(*final(self)),
            final(self).k == old(self).k,
            final(self).sample_dims == old(self).sample_dims,
            final(self).distsum == old(self).distsum,
            final(self).assignments@ == old(self).assignments@,
            final(self).centroid_distances@ == old(self).centroid_distances@,
            final(self).centroid_frequency@ == old(self).centroid_frequency@,
            final(self).centroids@.len() == old(self).centroids@.len(),
            final(self).spec_centroid_row(j as int) == kmean.spec_sample_row(sample_idx as int),
            forall|j2: int|
                0 <= j2 < old(self).k && j2 != j ==> #[trigger] final(self).spec_centroid_row(j2)
                    == old(self).spec_centroid_row(j2),
    {
        let p = self.sample_dims;
        proof {
            lemma_row_in_bounds(
                self.centroids@.len() as int,
                p as int,
                self.k as int,
                j as int,
            );
            lemma_row_in_bounds(
                kmean.p_samples@.len() as int,
                p as int,
                kmean.sample_cnt as int,
                sample_idx as int,
            );
        }
        proof {
            assert(self.centroids@.len() == self.centroids.len());
            assert(kmean.p_samples@.len() == kmean.p_samples.len());
        }
        let base_c = j * p;
        let base_s = sample_idx * p;
        let ghost orig = *self;
        let mut t: usize = 0;
        while t < p
            invariant
                kmean.wf(),
                p == self.sample_dims,
                self.sample_dims == orig.sample_dims,
                self.k == orig.k,
                self.distsum == orig.distsum,
                self.assignments@ == orig.assignments@,
                self.centroid_distances@ == orig.centroid_distances@,
                self.centroid_frequency@ == orig.centroid_frequency@,
                self.centroids@.len() == orig.centroids@.len(),
                base_c == j as int * p as int,
                base_s == sample_idx as int * p as int,
                base_c + p <= self.centroids@.len(),
                base_s + p <= kmean.p_samples@.len(),
                base_c + p <= usize::MAX,
                base_s + p <= usize::MAX,
                t <= p,
                coords_bounded(self.centroids@),
                forall|q: int|
                    0 <= q < self.centroids@.len() && !(base_c <= q < base_c + p)
                        ==> #[trigger] self.centroids@[q] == orig.centroids@[q],
                forall|t2: int|
                    0 <= t2 < t ==> #[trigger] self.centroids@[base_c + t2] == kmean.p_samples@[base_s
                        + t2],
            decreases p - t,
        {
            let v = kmean.p_samples[base_s + t];
            assert(-COORD_MAX <= v <= COORD_MAX);
            self.centroids[base_c + t] = v;
            t += 1;
        }
        proof {
            assert forall|t2: int| 0 <= t2 < p implies #[trigger] self.spec_centroid_row(
                j as int,
            )[t2] == kmean.spec_sample_row(sample_idx as int)[t2] by {
                assert(self.centroids@[base_c + t2] == kmean.p_samples@[base_s + t2]);
                assert(self.spec_centroid_row(j as int)[t2] == self.centroids@[j as int * (
                p as int) + t2]);
                assert(kmean.spec_sample_row(sample_idx as int)[t2] == kmean.p_samples@[sample_idx
                    as int * (p as int) + t2]);
            }
            assert(self.spec_centroid_row(j as int) =~= kmean.spec_sample_row(sample_idx as int));
            assert forall|j2: int| 0 <= j2 < orig.k && j2 != j implies #[trigger] self.spec_centroid_row(
                j2,
            ) == orig.spec_centroid_row(j2) by {
                lemma_row_in_bounds(
                    self.centroids@.len() as int,
                    p as int,
                    self.k as int,
                    j2,
                );
                assert forall|t2: int| 0 <= t2 < p implies #[trigger] self.spec_centroid_row(
                    j2,
                )[t2] == orig.spec_centroid_row(j2)[t2] by {
                    lemma_rows_disjoint(p as int, j2, j as int, t2);
                    assert(self.centroids@[j2 * (p as int) + t2] == orig.centroids@[j2 * (
                    p as int) + t2]);
                }
                assert(self.spec_centroid_row(j2) =~= orig.spec_centroid_row(j2));
            }
        }
    }
}

impl KMeans {
    /// Build an engine instance from a flat row-major sample matrix of
    /// `sample_cnt` rows of `sample_dims` coordinates. Rows are copied into a
    /// lane-padded buffer; the padding is zero. Rejects a mismatched buffer
    /// length, matrices over `TOTAL_MAX` elements, and out-of-range
    /// coordinates.
    pub fn new(samples: Vec<i64>, sample_cnt: usize, sample_dims: usize) -> (r: Result<
        KMeans,
        KMeansError,
    >)
        ensures
            r is Ok <==> spec_shape_ok(
                samples@.len() as int,
                sample_cnt as int,
                sample_dims as int,
            ) && spec_size_ok(sample_cnt as int, sample_dims as int) && coords_bounded(samples@),
            r matches Ok(km) ==> {
                &&& km.wf()
                &&& km.sample_cnt == sample_cnt
                &&& km.sample_dims == sample_dims
                &&& km.p_sample_dims as int == padded_width(sample_dims as int)
                &&& forall|i: int, c: int|
                    0 <= i < sample_cnt && 0 <= c < sample_dims
                        ==> #[trigger] km.spec_sample_row(i)[c] == samples@[i * sample_dims as int
                        + c]
                &&& forall|i: int, c: int|
                    0 <= i < sample_cnt && sample_dims <= c < km.p_sample_dims
                        ==> #[trigger] km.spec_sample_row(i)[c] == 0i64
            },
            r matches Err(e) ==> {
                &&& (e == KMeansError::InvalidShape <==> !spec_shape_ok(
                    samples@.len() as int,
                    sample_cnt as int,
                    sample_dims as int,
                ))
                &&& (e == KMeansError::TooLarge <==> spec_shape_ok(
                    samples@.len() as int,
                    sample_cnt as int,
                    sample_dims as int,
                ) && !spec_size_ok(sample_cnt as int, sample_dims as int))
                &&& (e == KMeansError::CoordinateOutOfRange <==> spec_shape_ok(
                    samples@.len() as int,
                    sample_cnt as int,
                    sample_dims as int,
                ) && spec_size_ok(sample_cnt as int, sample_dims as int) && !coords_bounded(
                    samples@,
                ))
            },
    {
        if sample_cnt == 0 || sample_dims == 0 {
            return Err(KMeansError::InvalidShape);
        }
        let len = samples.len();
        if len % sample_dims != 0 || len / sample_dims != sample_cnt {
            proof {
                if len as int == sample_cnt as int * sample_dims as int {
                    vstd::arithmetic::div_mod::lemma_div_multiples_vanish(
                        sample_cnt as int,
                        sample_dims as int,
                    );
                    vstd::arithmetic::div_mod::lemma_mod_multiples_basic(
                        sample_cnt as int,
                        sample_dims as int,
                    );
                    assert(len as int / (sample_dims as int) == sample_cnt as int);
                    assert(len as int % (sample_dims as int) == 0);
                    assert(false);
                }
                assert(!spec_shape_ok(
                    samples@.len() as int,
                    sample_cnt as int,
                    sample_dims as int,
                ));
            }
            return Err(KMeansError::InvalidShape);
        }
        proof {
            vstd::arithmetic::div_mod::lemma_fundamental_div_mod(len as int, sample_dims as int);
            assert(len as int % (sample_dims as int) == 0);
            assert(len as int / (sample_dims as int) == sample_cnt as int);
            assert(len as int == (sample_dims as int) * (len as int / (sample_dims as int))
                + len as int % (sample_dims as int));
            assert(sample_dims as int * sample_cnt as int == sample_cnt as int
                * sample_dims as int) by (nonlinear_arith);
            assert(len as int == sample_cnt as int * sample_dims as int);
        }
        proof {
            lemma_padded_width(sample_dims as int);
        }
        if sample_dims > TOTAL_MAX {
            proof {
                assert(sample_cnt as int * padded_width(sample_dims as int) > TOTAL_MAX as int)
                    by (nonlinear_arith)
                    requires
                        sample_cnt >= 1,
                        padded_width(sample_dims as int) > TOTAL_MAX as int,
                ;
            }
            return Err(KMeansError::TooLarge);
        }
        assert((sample_dims as int - 1) / (LANES as int) <= sample_dims as int - 1) by {
            vstd::arithmetic::div_mod::lemma_div_nonincreasing(
                sample_dims as int - 1,
                LANES as int,
            );
        }
        let p = ((sample_dims - 1) / LANES + 1) * LANES;
        assert(p as int == padded_width(sample_dims as int));
        if sample_cnt > TOTAL_MAX / p {
            proof {
                vstd::arithmetic::div_mod::lemma_fundamental_div_mod(TOTAL_MAX as int, p as int);
                vstd::arithmetic::div_mod::lemma_mod_bound(TOTAL_MAX as int, p as int);
                assert(sample_cnt as int * p as int > TOTAL_MAX as int) by (nonlinear_arith)
                    requires
                        sample_cnt as int >= TOTAL_MAX as int / p as int + 1,
                        TOTAL_MAX as int == (p as int) * (TOTAL_MAX as int / p as int)
                            + (TOTAL_MAX as int) % (p as int),
                        (TOTAL_MAX as int) % (p as int) < p as int,
                        p >= 1,
                ;
            }
            return Err(KMeansError::TooLarge);
        }
        proof {
            vstd::arithmetic::div_mod::lemma_fundamental_div_mod(TOTAL_MAX as int, p as int);
            vstd::arithmetic::div_mod::lemma_mod_bound(TOTAL_MAX as int, p as int);
            assert(sample_cnt as int * p as int <= TOTAL_MAX as int) by (nonlinear_arith)
                requires
                    sample_cnt as int <= TOTAL_MAX as int / p as int,
                    TOTAL_MAX as int == (p as int) * (TOTAL_MAX as int / p as int)
                        + (TOTAL_MAX as int) % (p as int),
                    (TOTAL_MAX as int) % (p as int) >= 0,
                    p >= 1,
            ;
        }
        let mut idx: usize = 0;
        while idx < len
            invariant
                len == samples@.len(),
                idx <= len,
                sample_cnt >= 1,
                sample_dims >= 1,
                samples@.len() == sample_cnt as int * sample_dims as int,
                p as int == padded_width(sample_dims as int),
                sample_cnt as int * (p as int) <= TOTAL_MAX as int,
                forall|q: int| 0 <= q < idx ==> -COORD_MAX <= #[trigger] samples@[q] <= COORD_MAX,
            decreases len - idx,
        {
            let v = samples[idx];
            if v < -COORD_MAX || v > COORD_MAX {
                proof {
                    assert(!(-COORD_MAX <= samples@[idx as int] <= COORD_MAX));
                }
                return Err(KMeansError::CoordinateOutOfRange);
            }
            idx += 1;
        }
        proof {
            lemma_mul_keeps_mod_zero(sample_cnt as int, p as int, LANES as int);
        }
        proof {
            assert(sample_cnt as int * sample_dims as int <= sample_cnt as int * p as int)
                by (nonlinear_arith)
                requires
                    sample_dims as int <= p as int,
                    sample_cnt as int >= 0,
            ;
        }
        let total = sample_cnt * p;
        let mut buf: Vec<i64> = AlignedFloatVec::new(total);
        let mut i: usize = 0;
        while i < sample_cnt
            invariant
                sample_cnt >= 1,
                1 <= sample_dims <= p,
                p as int == padded_width(sample_dims as int),
                sample_cnt as int * p as int <= TOTAL_MAX as int,
                samples@.len() == sample_cnt as int * sample_dims as int,
                samples@.len() <= TOTAL_MAX as int,
                buf@.len() == sample_cnt as int * p as int,
                coords_bounded(samples@),
                coords_bounded(buf@),
                i <= sample_cnt,
                forall|q: int|
                    0 <= q < buf@.len() && q % (p as int) >= sample_dims ==> #[trigger] buf@[q]
                        == 0i64,
                forall|q: int|
                    0 <= q < i * (p as int) && q % (p as int) < sample_dims ==> #[trigger] buf@[q]
                        == samples@[(q / (p as int)) * (sample_dims as int) + q % (p as int)],
            decreases sample_cnt - i,
        {
            proof {
                lemma_row_in_bounds(
                    buf@.len() as int,
                    p as int,
                    sample_cnt as int,
                    i as int,
                );
                lemma_row_in_bounds(
                    samples@.len() as int,
                    sample_dims as int,
                    sample_cnt as int,
                    i as int,
                );
            }
            let mut c: usize = 0;
            while c < sample_dims
                invariant
                    sample_cnt >= 1,
                    1 <= sample_dims <= p,
                    p as int == padded_width(sample_dims as int),
                    sample_cnt as int * p as int <= TOTAL_MAX as int,
                    samples@.len() == sample_cnt as int * sample_dims as int,
                    samples@.len() <= TOTAL_MAX as int,
                    buf@.len() == sample_cnt as int * p as int,
                    coords_bounded(samples@),
                    coords_bounded(buf@),
                    i < sample_cnt,
                    c <= sample_dims,
                    i as int * p as int + p as int <= buf@.len(),
                    i as int * sample_dims as int + sample_dims as int <= samples@.len(),
                    forall|q: int|
                        0 <= q < buf@.len() && q % (p as int) >= sample_dims ==> #[trigger] buf@[q]
                            == 0i64,
                    forall|q: int|
                        0 <= q < i * (p as int) + c && q % (p as int) < sample_dims
                            ==> #[trigger] buf@[q] == samples@[(q / (p as int)) * (sample_dims
                            as int) + q % (p as int)],
                decreases sample_dims - c,
            {
                let v = samples[i * sample_dims + c];
                proof {
                    lemma_flat_index(p as int, i as int, c as int);
                    lemma_flat_index(sample_dims as int, i as int, c as int);
                }
                buf[i * p + c] = v;
                c += 1;
            }
            proof {
                assert forall|q: int|
                    0 <= q < (i + 1) * (p as int) && q % (p as int) < sample_dims
                        implies #[trigger] buf@[q] == samples@[(q / (p as int)) * (sample_dims
                    as int) + q % (p as int)] by {
                    if q >= i * (p as int) + sample_dims {
                        let t = q - i * (p as int);
                        assert((i as int + 1) * (p as int) == i * (p as int) + (p as int))
                            by (nonlinear_arith);
                        lemma_flat_index(p as int, i as int, t);
                        assert(q % (p as int) == t);
                        assert(false);
                    }
                }
            }
            i += 1;
        }
        let km = KMeans { p_samples: buf, sample_cnt, sample_dims, p_sample_dims: p };
        proof {
            assert forall|i2: int, c2: int|
                0 <= i2 < sample_cnt && 0 <= c2 < sample_dims implies #[trigger] km.spec_sample_row(
                i2,
            )[c2] == samples@[i2 * sample_dims as int + c2] by {
                lemma_row_in_bounds(
                    km.p_samples@.len() as int,
                    p as int,
                    sample_cnt as int,
                    i2,
                );
                lemma_flat_index(p as int, i2, c2);
                assert(i2 * (p as int) + c2 < sample_cnt as int * (p as int)) by (nonlinear_arith)
                    requires
                        0 <= i2 < sample_cnt as int,
                        0 <= c2 < p as int,
                ;
            }
            assert forall|i2: int, c2: int|
                0 <= i2 < sample_cnt && sample_dims <= c2 < p implies #[trigger] km.spec_sample_row(
                i2,
            )[c2] == 0i64 by {
                lemma_row_in_bounds(
                    km.p_samples@.len() as int,
                    p as int,
                    sample_cnt as int,
                    i2,
                );
                lemma_flat_index(p as int, i2, c2);
            }
        }
        Ok(km)
    }
}

impl KMeans {
    /// Index and squared distance of the centroid nearest to sample `i`.
    pub(crate) fn nearest_centroid(&self, state: &KMeansState, i: usize) -> (r: (usize, u64))
        requires
            self.wf(),
            self.valid_state(*state),
            i < self.sample_cnt,
        ensures
            r.0 < state.k,
            r.1 as int == dist_sq(self.spec_sample_row(i as int), state.spec_centroid_row(r.0 as int)),
            r.1 as int == min_dist_upto(
                self.spec_sample_row(i as int),
                state.centroids@,
                state.sample_dims as int,
                state.k as int,
            ),
            r.1 as int <= state.sample_dims as int * DIST_PER_DIM_MAX,
    {
        let p = state.sample_dims;
        proof {
            assert(self.p_samples@.len() == self.p_samples.len());
            assert(state.centroids@.len() == state.centroids.len());
            lemma_row_in_bounds(
                self.p_samples@.len() as int,
                p as int,
                self.sample_cnt as int,
                i as int,
            );
            lemma_row_in_bounds(state.centroids@.len() as int, p as int, state.k as int, 0);
        }
        let base_s = i * p;
        let mut best = dist_sq_exec(&self.p_samples, base_s, &state.centroids, 0, p);
        let mut best_j: usize = 0;
        proof {
            assert(self.spec_sample_row(i as int) =~= self.p_samples@.subrange(
                base_s as int,
                base_s as int + p as int,
            ));
            assert(state.spec_centroid_row(0) =~= state.centroids@.subrange(0, p as int));
        }
        let mut j: usize = 1;
        while j < state.k
            invariant
                self.wf(),
                self.valid_state(*state),
                i < self.sample_cnt,
                p == state.sample_dims,
                base_s == i as int * p as int,
                base_s + p <= self.p_samples@.len(),
                1 <= j <= state.k,
                best_j < j,
                best as int == dist_sq(
                    self.spec_sample_row(i as int),
                    state.spec_centroid_row(best_j as int),
                ),
                best as int == min_dist_upto(
                    self.spec_sample_row(i as int),
                    state.centroids@,
                    state.sample_dims as int,
                    j as int,
                ),
                best as int <= state.sample_dims as int * DIST_PER_DIM_MAX,
            decreases state.k - j,
        {
            proof {
                assert(state.centroids@.len() == state.centroids.len());
                lemma_row_in_bounds(
                    state.centroids@.len() as int,
                    p as int,
                    state.k as int,
                    j as int,
                );
            }
            let base_c = j * p;
            let d = dist_sq_exec(&self.p_samples, base_s, &state.centroids, base_c, p);
            proof {
                assert(self.spec_sample_row(i as int) =~= self.p_samples@.subrange(
                    base_s as int,
                    base_s as int + p as int,
                ));
                assert(state.spec_centroid_row(j as int) =~= state.centroids@.subrange(
                    base_c as int,
                    base_c as int + p as int,
                ));
            }
            if d < best {
                best = d;
                best_j = j;
            }
            j += 1;
        }
        (best_j, best)
    }

    /// Full kernel pass: recompute every sample's nearest centroid and
    /// distance (the distance sum is recomputed separately).
    fn full_pass(&self, state: &mut KMeansState)
        requires
            self.wf(),
            self.valid_state(*old(state)),
        ensures
            self.valid_state(*final(state)),
            final(state).k == old(state).k,
            final(state).sample_dims == old(state).sample_dims,
            final(state).distsum == old(state).distsum,
            final(state).centroids@ == old(state).centroids@,
            final(state).centroid_frequency@ == old(state).centroid_frequency@,
            self.distances_consistent(*final(state), old(state).k as int),
            self.assignments_consistent(*final(state)),
            final(state).distances_bounded(),
    {
        let ghost orig = *state;
        let n = self.sample_cnt;
        let mut i: usize = 0;
        while i < n
            invariant
                self.wf(),
                self.valid_state(*state),
                n == self.sample_cnt,
                i <= n,
                state.k == orig.k,
                state.sample_dims == orig.sample_dims,
                state.distsum == orig.distsum,
                state.centroids@ == orig.centroids@,
                state.centroid_frequency@ == orig.centroid_frequency@,
                forall|i2: int| 0 <= i2 < i ==> #[trigger] state.assignments@[i2] < state.k,
                forall|i2: int|
                    0 <= i2 < i ==> #[trigger] state.centroid_distances@[i2] as int == dist_sq(
                        self.spec_sample_row(i2),
                        state.spec_centroid_row(state.assignments@[i2] as int),
                    ),
                forall|i2: int|
                    0 <= i2 < i ==> #[trigger] state.centroid_distances@[i2] as int
                        == min_dist_upto(
                        self.spec_sample_row(i2),
                        state.centroids@,
                        state.sample_dims as int,
                        state.k as int,
                    ),
                forall|i2: int|
                    0 <= i2 < i ==> #[trigger] state.centroid_distances@[i2] as int
                        <= state.sample_dims as int * DIST_PER_DIM_MAX,
            decreases n - i,
        {
            let pair = self.nearest_centroid(state, i);
            state.assignments[i] = pair.0;
            state.centroid_distances[i] = pair.1;
            i += 1;
        }
    }

    /// Partial kernel pass: fold centroid `j` into every sample's running
    /// minimum distance.
    fn partial_pass(&self, state: &mut KMeansState, j: usize)
        requires
            self.wf(),
            self.valid_state(*old(state)),
            j < old(state).k,
        ensures
            self.valid_state(*final(state)),
            final(state).k == old(state).k,
            final(state).sample_dims == old(state).sample_dims,
            final(state).distsum == old(state).distsum,
            final(state).centroids@ == old(state).centroids@,
            final(state).centroid_frequency@ == old(state).centroid_frequency@,
            final(state).assignments@ == old(state).assignments@,
            forall|i: int|
                0 <= i < self.sample_cnt ==> #[trigger] final(state).centroid_distances@[i] as int
                    == min2(
                    old(state).centroid_distances@[i] as int,
                    dist_sq(self.spec_sample_row(i), old(state).spec_centroid_row(j as int)),
                ),
            final(state).distances_bounded(),
    {
        let ghost orig = *state;
        let p = state.sample_dims;
        let n = self.sample_cnt;
        proof {
            assert(state.centroids@.len() == state.centroids.len());
            lemma_row_in_bounds(state.centroids@.len() as int, p as int, state.k as int, j as int);
        }
        let base_c = j * p;
        let mut i: usize = 0;
        while i < n
            invariant
                self.wf(),
                self.valid_state(*state),
                n == self.sample_cnt,
                i <= n,
                p == state.sample_dims,
                j < state.k,
                base_c == j as int * p as int,
                base_c + p <= state.centroids@.len(),
                state.k == orig.k,
                state.sample_dims == orig.sample_dims,
                state.distsum == orig.distsum,
                state.centroids@ == orig.centroids@,
                state.centroid_frequency@ == orig.centroid_frequency@,
                state.assignments@ == orig.assignments@,
                forall|i2: int|
                    i <= i2 < n ==> #[trigger] state.centroid_distances@[i2]
                        == orig.centroid_distances@[i2],
                forall|i2: int|
                    0 <= i2 < i ==> #[trigger] state.centroid_distances@[i2] as int == min2(
                        orig.centroid_distances@[i2] as int,
                        dist_sq(self.spec_sample_row(i2), orig.spec_centroid_row(j as int)),
                    ),
                forall|i2: int|
                    0 <= i2 < i ==> #[trigger] state.centroid_distances@[i2] as int
                        <= state.sample_dims as int * DIST_PER_DIM_MAX,
            decreases n - i,
        {
            proof {
                assert(self.p_samples@.len() == self.p_samples.len());
                lemma_row_in_bounds(
                    self.p_samples@.len() as int,
                    p as int,
                    self.sample_cnt as int,
                    i as int,
                );
            }
            let base_s = i * p;
            let d = dist_sq_exec(&self.p_samples, base_s, &state.centroids, base_c, p);
            proof {
                assert(self.spec_sample_row(i as int) =~= self.p_samples@.subrange(
                    base_s as int,
                    base_s as int + p as int,
                ));
                assert(state.spec_centroid_row(j as int) =~= state.centroids@.subrange(
                    base_c as int,
                    base_c as int + p as int,
                ));
            }
            if d < state.centroid_distances[i] {
                state.centroid_distances[i] = d;
            }
            i += 1;
        }
    }

    /// Recompute the distance sum as the total of the distance vector.
    fn recompute_distsum(&self, state: &mut KMeansState)
        requires
            self.wf(),
            self.valid_state(*old(state)),
            old(state).distances_bounded(),
        ensures
            final(state).k == old(state).k,
            final(state).sample_dims == old(state).sample_dims,
            final(state).centroids@ == old(state).centroids@,
            final(state).centroid_frequency@ == old(state).centroid_frequency@,
            final(state).assignments@ == old(state).assignments@,
            final(state).centroid_distances@ == old(state).centroid_distances@,
            final(state).distsum as int == sum_dists(final(state).centroid_distances@),
    {
        let ghost orig = *state;
        let n = self.sample_cnt;
        let ghost bound = state.sample_dims as int * DIST_PER_DIM_MAX;
        let mut acc: u64 = 0;
        let mut i: usize = 0;
        while i < n
            invariant
                self.wf(),
                self.valid_state(*state),
                *state == orig,
                state.distances_bounded(),
                n == self.sample_cnt,
                i <= n,
                bound == state.sample_dims as int * DIST_PER_DIM_MAX,
                acc as int == sum_dists(state.centroid_distances@.take(i as int)),
                acc as int <= i as int * bound,
            decreases n - i,
        {
            let d = state.centroid_distances[i];
            proof {
                assert(state.centroid_distances@[i as int] as int <= bound);
                assert((i as int + 1) * bound == i as int * bound + bound) by (nonlinear_arith);
                lemma_distsum_fits(n as int, state.sample_dims as int);
                assert(i as int + 1 <= n);
                assert((i as int + 1) * bound <= n as int * bound) by (nonlinear_arith)
                    requires
                        i as int + 1 <= n as int,
                        bound >= 0,
                ;
                assert(n as int * bound == n as int * (state.sample_dims as int
                    * DIST_PER_DIM_MAX));
                let taken = state.centroid_distances@.take(i as int + 1);
                assert(taken.drop_last() =~= state.centroid_distances@.take(i as int));
                assert(taken.last() == state.centroid_distances@[i as int]);
            }
            acc = acc + d;
            i += 1;
        }
        proof {
            assert(state.centroid_distances@.take(n as int) =~= state.centroid_distances@);
        }
        state.distsum = acc;
    }

    /// The nearest-centroid assignment kernel. In full mode (`limit_k ==
    /// None`) it recomputes, for every sample, the nearest centroid among
    /// all `k` and its squared distance. In partial mode (`limit_k ==
    /// Some(j)`) it only folds centroid `j` into every sample's running
    /// minimum distance, leaving the assignment vector alone. Both modes
    /// recompute the distance sum as the total of the distance vector.
    pub fn update_cluster_assignments(&self, state: &mut KMeansState, limit_k: Option<usize>)
        requires
            self.wf(),
            self.valid_state(*old(state)),
            match limit_k {
                Some(j) => j < old(state).k,
                None => true,
            },
        ensures
            self.valid_state(*final(state)),
            final(state).k == old(state).k,
            final(state).sample_dims == old(state).sample_dims,
            final(state).centroids@ == old(state).centroids@,
            final(state).centroid_frequency@ == old(state).centroid_frequency@,
            final(state).distsum as int == sum_dists(final(state).centroid_distances@),
            final(state).distances_bounded(),
            match limit_k {
                None => self.state_consistent(*final(state)),
                Some(j) => final(state).assignments@ == old(state).assignments@ && forall|i: int|
                    0 <= i < self.sample_cnt ==> #[trigger] final(state).centroid_distances@[i]
                        as int == min2(
                        old(state).centroid_distances@[i] as int,
                        dist_sq(self.spec_sample_row(i), old(state).spec_centroid_row(j as int)),
                    ),
            },
    {
        match limit_k {
            None => self.full_pass(state),
            Some(j) => self.partial_pass(state, j),
        }
        self.recompute_distsum(state);
    }
}

/// Total squared distance of the first `n` samples under an arbitrary
/// assignment vector, against the centroids of `state`.
pub open spec fn assignment_cost(kmean: KMeans, state: KMeansState, asg: Seq<usize>, n: int) -> int
    decreases n,
{
    if n <= 0 {
        0
    } else {
        assignment_cost(kmean, state, asg, n - 1) + dist_sq(
            kmean.spec_sample_row(n - 1),
            state.spec_centroid_row(asg[n - 1] as int),
        )
    }
}

proof fn lemma_prefix_cost(kmean: KMeans, state: KMeansState, asg: Seq<usize>, m: int)
    requires
        kmean.wf(),
        kmean.valid_state(state),
        kmean.distances_consistent(state, state.k as int),
        asg.len() == kmean.sample_cnt,
        forall|i: int| 0 <= i < asg.len() ==> #[trigger] asg[i] < state.k,
        0 <= m <= kmean.sample_cnt,
    ensures
        sum_dists(state.centroid_distances@.take(m)) <= assignment_cost(kmean, state, asg, m),
    decreases m,
{
    if m > 0 {
        lemma_prefix_cost(kmean, state, asg, m - 1);
        let taken = state.centroid_distances@.take(m);
        assert(taken.drop_last() =~= state.centroid_distances@.take(m - 1));
        assert(taken.last() == state.centroid_distances@[m - 1]);
        crate::helpers::lemma_min_dist_le(
            kmean.spec_sample_row(m - 1),
            state.centroids@,
            state.sample_dims as int,
            state.k as int,
            asg[m - 1] as int,
        );
    }
}

/// The full assignment kernel is optimal: against a fixed centroid matrix,
/// no assignment vector achieves a smaller total squared distance than the
/// distance sum of a fully consistent state. This is the reassignment half
/// of Lloyd's monotone convergence: reassigning samples to their nearest
/// centroids never increases the objective.
pub proof fn lemma_assignment_step_optimal(kmean: KMeans, state: KMeansState, asg: Seq<usize>)
    requires
        kmean.wf(),
        kmean.valid_state(state),
        kmean.state_consistent(state),
        asg.len() == kmean.sample_cnt,
        forall|i: int| 0 <= i < asg.len() ==> #[trigger] asg[i] < state.k,
    ensures
        state.distsum as int <= assignment_cost(kmean, state, asg, kmean.sample_cnt as int),
{
    lemma_prefix_cost(kmean, state, asg, kmean.sample_cnt as int);
    assert(state.centroid_distances@.take(kmean.sample_cnt as int)
        =~= state.centroid_distances@);
}

/// The sample buffer has exactly `n` rows of `d` coordinates.
pub open spec fn spec_shape_ok(len: int, n: int, d: int) -> bool {
    n >= 1 && d >= 1 && len == n * d
}

/// The padded sample matrix stays within `TOTAL_MAX` elements.
pub open spec fn spec_size_ok(n: int, d: int) -> bool {
    n * padded_width(d) <= TOTAL_MAX
}

} // verus!
