//! The sampler capability: what a trial context offers the objective
//! function for drawing parameter values.

use vstd::prelude::*;

use crate::frozen_trial::{ParamRec, ParamValue, TrialRec};
use crate::storage::param_set_result;

verus! {

/// A capability that draws a value from a declared distribution and durably
/// records the (name, value, distribution) triple against one trial before
/// handing the value back.
pub trait Sampler {
    /// The contents of the store the capability records into.
    spec fn sampler_store(&self) -> Map<(u128, usize), TrialRec>;

    /// The (study, trial) key the capability is scoped to.
    spec fn sampler_key(&self) -> (u128, usize);

    /// A live capability: its store is sound and its trial not complete.
    spec fn sampler_inv(&self) -> bool;

    /// Draws a value uniformly from `[low, high)` and records it under the
    /// name, as drawn from the "uniform" distribution, before returning it.
    fn sample_uniform(&mut self, name: &str, low: i64, high: i64) -> (r: i64)
        requires
            old(self).sampler_inv(),
            low < high,
        ensures
            final(self).sampler_inv(),
            final(self).sampler_key() == old(self).sampler_key(),
            low <= r < high,
            final(self).sampler_store() == param_set_result(
                old(self).sampler_store(),
                old(self).sampler_key(),
                name@,
                (ParamRec { value: ParamValue::Int(r), dist_name: "uniform"@ }),
            ),
    ;
}

} // verus!
