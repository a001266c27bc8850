//! Flat numeric buffers sized for lane-parallel access.
//!
//! Every matrix of the engine (samples, centroids) is one flat allocation
//! whose length is a whole number of lanes, so that a row of width padded up
//! to `LANES` always covers full lane groups. The allocator here is the one
//! place that enforces this sizing invariant; everything else indexes into
//! the returned vector through checked accesses.

use vstd::prelude::*;

verus! {

/// Number of scalar values one vector lane group covers. Row widths are
/// padded up to a multiple of this count.
pub const LANES: usize = 8;

/// Largest coordinate magnitude the engine accepts. Keeping every coordinate
/// in `[-COORD_MAX, COORD_MAX]` bounds each squared distance by
/// `4 * COORD_MAX * COORD_MAX` per dimension, which keeps all distance
/// arithmetic inside `u64`.
pub const COORD_MAX: i64 = 65536;

/// Bound on the total element count of any one matrix (samples or
/// centroids). With `COORD_MAX` as above, a sum of squared distances over at
/// most `TOTAL_MAX` coordinate pairs stays below `2^63`.
pub const TOTAL_MAX: usize = 0x2000_0000;

/// The scalar capability the buffer allocator needs from an element type:
/// a copyable value with a distinguished zero.
pub trait Primitive: Sized + Copy {
    /// Whether this value is the zero of the type.
    spec fn is_zero(self) -> bool;

    /// The zero value used to fill fresh buffers.
    fn zero() -> (r: Self)
        ensures
            r.is_zero(),
    ;
}

impl Primitive for i64 {
    open spec fn is_zero(self) -> bool {
        self == 0
    }

    fn zero() -> (r: i64) {
        0
    }
}

impl Primitive for u64 {
    open spec fn is_zero(self) -> bool {
        self == 0
    }

    fn zero() -> (r: u64) {
        0
    }
}

/// Allocator for flat numeric buffers whose length is a whole number of
/// lane groups.
pub struct AlignedFloatVec;

impl AlignedFloatVec {
    /// A zero-filled buffer of `size` elements; `size` must be a whole
    /// number of lane groups.
    pub fn new<T: Primitive>(size: usize) -> (r: Vec<T>)
        requires
            size % LANES == 0,
        ensures
            r@.len() == size,
            forall|i: int| 0 <= i < size ==> r@[i].is_zero(),
    {
        let mut v: Vec<T> = Vec::new();
        while v.len() < size
            invariant
                v@.len() <= size,
                forall|i: int| 0 <= i < v@.len() ==> v@[i].is_zero(),
            decreases size - v@.len(),
        {
            v.push(T::zero());
        }
        v
    }

    /// A buffer of `size` elements whose content carries no promise beyond
    /// its length; callers must overwrite it fully before reading. `size`
    /// must be a whole number of lane groups.
    pub fn new_uninitialized<T: Primitive>(size: usize) -> (r: Vec<T>)
        requires
            size % LANES == 0,
        ensures
            r@.len() == size,
    {
        Self::new(size)
    }
}

} // verus!
