//! Random-sample initialization: every centroid is a sample row drawn
//! uniformly at random, with replacement and without corrective resampling.

use vstd::prelude::*;
use crate::api::{KMeans, KMeansConfig, KMeansState};
use crate::random::rand_below;

verus! {

/// Populate the centroid matrix with `k` rows drawn uniformly at random
/// (with replacement) from the sample matrix. Every centroid row is a
/// verbatim sample row; nothing else in the state changes. Deterministic
/// given a deterministic random source.
pub fn calculate(kmean: &KMeans, state: &mut KMeansState, config: &mut KMeansConfig)
    requires
        kmean.wf(),
        kmean.valid_state(*old(state)),
    ensures
        kmean.valid_state(*final(state)),
        final(state).k == old(state).k,
        final(state).sample_dims == old(state).sample_dims,
        final(state).distsum == old(state).distsum,
        final(state).assignments@ == old(state).assignments@,
        final(state).centroid_distances@ == old(state).centroid_distances@,
        final(state).centroid_frequency@ == old(state).centroid_frequency@,
        forall|j: int|
            0 <= j < final(state).k ==> #[trigger] kmean.row_from_samples(*final(state), j),
{
    let ghost orig = *state;
    let k = state.k;
    let mut j: usize = 0;
    while j < k
        invariant
            kmean.wf(),
            kmean.valid_state(*state),
            k == state.k,
            j <= k,
            state.k == orig.k,
            state.sample_dims == orig.sample_dims,
            state.distsum == orig.distsum,
            state.assignments@ == orig.assignments@,
            state.centroid_distances@ == orig.centroid_distances@,
            state.centroid_frequency@ == orig.centroid_frequency@,
            forall|j2: int| 0 <= j2 < j ==> #[trigger] kmean.row_from_samples(*state, j2),
        decreases k - j,
    {
        let idx = rand_below(&mut config.rnd, kmean.sample_cnt);
        let ghost pre = *state;
        state.set_centroid(j, kmean, idx);
        proof {
            assert forall|j2: int| 0 <= j2 < j as int + 1 implies #[trigger] kmean.row_from_samples(
                *state,
                j2,
            ) by {
                if j2 == j as int {
                    assert(idx < kmean.sample_cnt && state.spec_centroid_row(j2)
                        == kmean.spec_sample_row(idx as int));
                } else {
                    assert(kmean.row_from_samples(pre, j2));
                    let i0 = choose|i: int|
                        0 <= i < kmean.sample_cnt && pre.spec_centroid_row(j2)
                            == #[trigger] kmean.spec_sample_row(i);
                    assert(state.spec_centroid_row(j2) == pre.spec_centroid_row(j2));
                    assert(state.spec_centroid_row(j2) == kmean.spec_sample_row(i0));
                }
            }
        }
        j += 1;
    }
}

} // verus!
