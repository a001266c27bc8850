//! The mathematical model of the engine: rows of a flat matrix, squared
//! Euclidean distance, running minima over centroid prefixes, and the sums
//! and bounds the executable code is proved against.

use vstd::prelude::*;
use crate::memory::{COORD_MAX, LANES, TOTAL_MAX};

verus! {

/// Largest squared distance one coordinate pair can contribute:
/// `(2 * COORD_MAX)^2`.
pub const DIST_PER_DIM_MAX: u64 = 0x4_0000_0000;

/// The smaller of two mathematical integers.
pub open spec fn min2(a: int, b: int) -> int {
    if a <= b {
        a
    } else {
        b
    }
}

/// Row `i` of a flat row-major matrix with rows of `width` elements.
pub open spec fn spec_row(buf: Seq<i64>, width: int, i: int) -> Seq<i64> {
    buf.subrange(i * width, i * width + width)
}

/// A square, as a mathematical integer.
pub open spec fn sq(x: int) -> int {
    x * x
}

/// Squared Euclidean distance between two equally long coordinate rows.
pub open spec fn dist_sq(a: Seq<i64>, b: Seq<i64>) -> int
    decreases a.len(),
{
    if a.len() == 0 || b.len() == 0 {
        0
    } else {
        dist_sq(a.drop_last(), b.drop_last()) + sq(a.last() - b.last())
    }
}

/// Minimum squared distance from `s` to the first `k` centroid rows
/// (meaningful for `k >= 1`).
pub open spec fn min_dist_upto(s: Seq<i64>, cents: Seq<i64>, width: int, k: int) -> int
    decreases k,
{
    if k <= 1 {
        dist_sq(s, spec_row(cents, width, 0))
    } else {
        min2(
            min_dist_upto(s, cents, width, k - 1),
            dist_sq(s, spec_row(cents, width, k - 1)),
        )
    }
}

/// Sum of a distance vector.
pub open spec fn sum_dists(d: Seq<u64>) -> int
    decreases d.len(),
{
    if d.len() == 0 {
        0
    } else {
        sum_dists(d.drop_last()) + d.last()
    }
}

/// Every coordinate within the accepted magnitude.
pub open spec fn coords_bounded(s: Seq<i64>) -> bool {
    forall|i: int| 0 <= i < s.len() ==> -COORD_MAX <= #[trigger] s[i] <= COORD_MAX
}

/// Row width padded up to a whole number of lanes (meaningful for `d >= 1`).
pub open spec fn padded_width(d: int) -> int {
    ((d - 1) / (LANES as int) + 1) * (LANES as int)
}

pub proof fn lemma_padded_width(d: int)
    requires
        d >= 1,
    ensures
        padded_width(d) % (LANES as int) == 0,
        d <= padded_width(d) < d + LANES,
{
    let l = LANES as int;
    let q = (d - 1) / l;
    vstd::arithmetic::div_mod::lemma_fundamental_div_mod(d - 1, l);
    vstd::arithmetic::div_mod::lemma_mod_bound(d - 1, l);
    assert((q + 1) * l == q * l + l) by (nonlinear_arith);
    vstd::arithmetic::div_mod::lemma_mod_multiples_basic(q + 1, l);
}

pub proof fn lemma_dist_sq_bound(a: Seq<i64>, b: Seq<i64>)
    requires
        coords_bounded(a),
        coords_bounded(b),
        a.len() == b.len(),
    ensures
        dist_sq(a, b) <= a.len() * DIST_PER_DIM_MAX,
    decreases a.len(),
{
    if a.len() == 0 {
    } else {
        lemma_dist_sq_bound(a.drop_last(), b.drop_last());
        let x = a.last() - b.last();
        assert(-2 * COORD_MAX <= x <= 2 * COORD_MAX);
        assert(x * x <= DIST_PER_DIM_MAX) by (nonlinear_arith)
            requires
                -2 * (COORD_MAX as int) <= x <= 2 * (COORD_MAX as int),
        ;
        assert(a.len() * DIST_PER_DIM_MAX == (a.len() - 1) * DIST_PER_DIM_MAX + DIST_PER_DIM_MAX)
            by (nonlinear_arith);
    }
}

/// The prefix minimum never exceeds the distance to any considered centroid.
pub proof fn lemma_min_dist_le(s: Seq<i64>, cents: Seq<i64>, width: int, k: int, j: int)
    requires
        0 <= j < k,
    ensures
        min_dist_upto(s, cents, width, k) <= dist_sq(s, spec_row(cents, width, j)),
    decreases k,
{
    if k <= 1 {
    } else {
        if j < k - 1 {
            lemma_min_dist_le(s, cents, width, k - 1, j);
        }
    }
}

/// The prefix minimum only depends on the considered centroid rows.
pub proof fn lemma_min_dist_same_prefix(
    s: Seq<i64>,
    c1: Seq<i64>,
    c2: Seq<i64>,
    width: int,
    k: int,
)
    requires
        k >= 1,
        forall|j: int| 0 <= j < k ==> spec_row(c1, width, j) == spec_row(c2, width, j),
    ensures
        min_dist_upto(s, c1, width, k) == min_dist_upto(s, c2, width, k),
    decreases k,
{
    if k <= 1 {
        assert(spec_row(c1, width, 0) == spec_row(c2, width, 0));
    } else {
        lemma_min_dist_same_prefix(s, c1, c2, width, k - 1);
        assert(spec_row(c1, width, k - 1) == spec_row(c2, width, k - 1));
    }
}

/// A positive sum comes from some positive entry.
pub proof fn lemma_sum_dists_pos_exists(d: Seq<u64>)
    requires
        sum_dists(d) > 0,
    ensures
        exists|i: int| 0 <= i < d.len() && #[trigger] d[i] > 0,
    decreases d.len(),
{
    if d.len() == 0 {
    } else {
        if d.last() > 0 {
            assert(d[d.len() - 1] > 0);
        } else {
            lemma_sum_dists_pos_exists(d.drop_last());
            let i = choose|i: int| 0 <= i < d.drop_last().len() && #[trigger] d.drop_last()[i] > 0;
            assert(d[i] > 0);
        }
    }
}

/// A row of a coordinate-bounded buffer is itself coordinate-bounded.
pub proof fn lemma_row_bounded(buf: Seq<i64>, width: int, i: int)
    requires
        coords_bounded(buf),
        width >= 1,
        i >= 0,
        i * width + width <= buf.len(),
    ensures
        coords_bounded(spec_row(buf, width, i)),
        spec_row(buf, width, i).len() == width,
{
    assert(i * width >= 0) by (nonlinear_arith)
        requires
            i >= 0 && width >= 1,
    ;
    assert forall|t: int| 0 <= t < width implies -COORD_MAX <= #[trigger] spec_row(buf, width, i)[t]
        <= COORD_MAX by {
        assert(spec_row(buf, width, i)[t] == buf[i * width + t]);
    }
}

/// Number of the first `n` samples assigned to centroid `j`.
pub open spec fn cluster_count(asg: Seq<usize>, j: int, n: int) -> int
    decreases n,
{
    if n <= 0 {
        0
    } else {
        cluster_count(asg, j, n - 1) + if asg[n - 1] == j {
            1int
        } else {
            0int
        }
    }
}

/// Sum of coordinate `t` over the first `n` samples assigned to centroid
/// `j`, in a flat row-major sample buffer with rows of `width` elements.
pub open spec fn cluster_coord_sum(
    buf: Seq<i64>,
    width: int,
    asg: Seq<usize>,
    j: int,
    t: int,
    n: int,
) -> int
    decreases n,
{
    if n <= 0 {
        0
    } else {
        cluster_coord_sum(buf, width, asg, j, t, n - 1) + if asg[n - 1] == j {
            buf[(n - 1) * width + t] as int
        } else {
            0int
        }
    }
}

pub proof fn lemma_cluster_count_bounds(asg: Seq<usize>, j: int, n: int)
    requires
        n >= 0,
    ensures
        0 <= cluster_count(asg, j, n) <= n,
    decreases n,
{
    if n > 0 {
        lemma_cluster_count_bounds(asg, j, n - 1);
    }
}

/// A per-cluster coordinate sum is bounded by the cluster's count times the
/// largest coordinate magnitude.
pub proof fn lemma_cluster_sum_bound(
    buf: Seq<i64>,
    width: int,
    asg: Seq<usize>,
    j: int,
    t: int,
    n: int,
)
    requires
        coords_bounded(buf),
        width >= 1,
        0 <= t < width,
        n >= 0,
        n * width <= buf.len(),
    ensures
        -cluster_count(asg, j, n) * COORD_MAX <= cluster_coord_sum(buf, width, asg, j, t, n)
            <= cluster_count(asg, j, n) * COORD_MAX,
    decreases n,
{
    if n > 0 {
        assert((n - 1) * width <= n * width) by (nonlinear_arith)
            requires
                width >= 1 && n >= 1,
        ;
        lemma_cluster_sum_bound(buf, width, asg, j, t, n - 1);
        lemma_cluster_count_bounds(asg, j, n - 1);
        let c0 = cluster_count(asg, j, n - 1);
        if asg[n - 1] == j {
            assert((n - 1) * width + t < n * width) by (nonlinear_arith)
                requires
                    width >= 1 && n >= 1 && t < width,
            ;
            assert((n - 1) * width + t >= 0) by (nonlinear_arith)
                requires
                    width >= 1 && n >= 1 && t >= 0,
            ;
            assert(-COORD_MAX <= buf[(n - 1) * width + t] <= COORD_MAX);
            assert((c0 + 1) * COORD_MAX == c0 * COORD_MAX + COORD_MAX) by (nonlinear_arith);
        }
    }
}

/// Euclidean (floor) division bounds: the quotient of a sum of `cnt` bounded
/// values stays within the bound.
pub proof fn lemma_div_floor_bound(sum: int, cnt: int, m: int)
    requires
        cnt >= 1,
        m >= 0,
        -cnt * m <= sum <= cnt * m,
    ensures
        -m <= sum / cnt <= m,
{
    vstd::arithmetic::div_mod::lemma_div_is_ordered(sum, cnt * m, cnt);
    vstd::arithmetic::div_mod::lemma_div_is_ordered(-cnt * m, sum, cnt);
    vstd::arithmetic::div_mod::lemma_div_multiples_vanish(m, cnt);
    vstd::arithmetic::div_mod::lemma_div_multiples_vanish(-m, cnt);
    assert(-cnt * m == cnt * (-m)) by (nonlinear_arith);
}

/// Floor division of a sum by a positive count, as the mathematical `/`.
pub(crate) fn div_floor(sum: i64, cnt: usize) -> (r: i64)
    requires
        1 <= cnt,
        -0x4000_0000_0000_0000 <= sum <= 0x4000_0000_0000_0000,
    ensures
        r as int == sum as int / cnt as int,
{
    if sum >= 0 {
        let q = (sum as u64) / (cnt as u64);
        proof {
            vstd::arithmetic::div_mod::lemma_div_nonincreasing(sum as int, cnt as int);
        }
        q as i64
    } else {
        let m = (-sum) as u64;
        let q = m / (cnt as u64);
        let rem = m % (cnt as u64);
        proof {
            vstd::arithmetic::div_mod::lemma_fundamental_div_mod(m as int, cnt as int);
            vstd::arithmetic::div_mod::lemma_mod_bound(m as int, cnt as int);
            vstd::arithmetic::div_mod::lemma_div_nonincreasing(m as int, cnt as int);
            let qi = m as int / cnt as int;
            let ri = m as int % cnt as int;
            if ri == 0 {
                assert(sum as int == (-qi) * cnt as int + 0) by (nonlinear_arith)
                    requires
                        m as int == cnt as int * qi,
                        sum as int == -(m as int),
                ;
                vstd::arithmetic::div_mod::lemma_fundamental_div_mod_converse(
                    sum as int,
                    cnt as int,
                    -qi,
                    0,
                );
            } else {
                assert(sum as int == (-qi - 1) * cnt as int + (cnt as int - ri))
                    by (nonlinear_arith)
                    requires
                        m as int == cnt as int * qi + ri,
                        sum as int == -(m as int),
                ;
                vstd::arithmetic::div_mod::lemma_fundamental_div_mod_converse(
                    sum as int,
                    cnt as int,
                    -qi - 1,
                    cnt as int - ri,
                );
            }
        }
        if rem == 0 {
            -(q as i64)
        } else {
            -((q + 1) as i64)
        }
    }
}

/// Positions in a flat row-major matrix decompose uniquely into row and
/// column.
pub proof fn lemma_flat_index(width: int, i: int, j: int)
    requires
        width >= 1,
        i >= 0,
        0 <= j < width,
    ensures
        (i * width + j) / width == i,
        (i * width + j) % width == j,
        i * width + j >= 0,
{
    assert(i * width >= 0) by (nonlinear_arith)
        requires
            i >= 0 && width >= 1,
    ;
    vstd::arithmetic::div_mod::lemma_fundamental_div_mod_converse(i * width + j, width, i, j);
}

/// A multiple of a lane-aligned width is itself lane-aligned.
pub proof fn lemma_mul_keeps_mod_zero(a: int, b: int, l: int)
    requires
        a >= 0,
        b >= 0,
        l >= 1,
        b % l == 0,
    ensures
        (a * b) % l == 0,
{
    let m = b / l;
    vstd::arithmetic::div_mod::lemma_fundamental_div_mod(b, l);
    assert(a * b == (a * m) * l) by (nonlinear_arith)
        requires
            b == l * m,
    ;
    vstd::arithmetic::div_mod::lemma_mod_multiples_basic(a * m, l);
}

/// Distinct rows of a flat matrix occupy disjoint index ranges.
pub proof fn lemma_rows_disjoint(width: int, j1: int, j2: int, t: int)
    requires
        width >= 1,
        j1 >= 0,
        j2 >= 0,
        j1 != j2,
        0 <= t < width,
    ensures
        j1 * width + t < j2 * width || j1 * width + t >= j2 * width + width,
{
    if j1 < j2 {
        assert((j1 + 1) * width <= j2 * width) by (nonlinear_arith)
            requires
                j1 + 1 <= j2 && width >= 1,
        ;
        assert((j1 + 1) * width == j1 * width + width) by (nonlinear_arith);
    } else {
        assert((j2 + 1) * width <= j1 * width) by (nonlinear_arith)
            requires
                j2 + 1 <= j1 && width >= 1,
        ;
        assert((j2 + 1) * width == j2 * width + width) by (nonlinear_arith);
    }
}

/// A distance sum over at most `TOTAL_MAX` coordinates in all fits `u64`.
pub proof fn lemma_distsum_fits(n: int, p: int)
    requires
        n >= 0,
        p >= 1,
        n * p <= TOTAL_MAX,
    ensures
        n * (p * DIST_PER_DIM_MAX) <= TOTAL_MAX * DIST_PER_DIM_MAX,
        TOTAL_MAX * DIST_PER_DIM_MAX < u64::MAX,
{
    assert(n * (p * DIST_PER_DIM_MAX) == (n * p) * DIST_PER_DIM_MAX) by (nonlinear_arith);
    assert((n * p) * DIST_PER_DIM_MAX <= TOTAL_MAX * DIST_PER_DIM_MAX) by (nonlinear_arith)
        requires
            n * p <= TOTAL_MAX,
    ;
}

/// Rows of a flat matrix fit inside the buffer.
pub proof fn lemma_row_in_bounds(len: int, width: int, rows: int, i: int)
    requires
        width >= 1,
        len == rows * width,
        0 <= i < rows,
    ensures
        0 <= i * width,
        i * width + width <= len,
{
    assert(i * width >= 0) by (nonlinear_arith)
        requires
            i >= 0 && width >= 1,
    ;
    assert((i + 1) * width <= rows * width) by (nonlinear_arith)
        requires
            i + 1 <= rows && width >= 1,
    ;
    assert((i + 1) * width == i * width + width) by (nonlinear_arith);
}

} // verus!
