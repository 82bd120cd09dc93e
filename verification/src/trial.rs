//! The per-execution context handed to an objective function: a storage
//! handle scoped to one (study, trial) pair, exposing the sampler
//! capability.

use rand::distributions::{Distribution, Uniform};
use vstd::prelude::*;

use crate::frozen_trial::{ParamValue, TrialRec};
use crate::sampler::Sampler;
use crate::storage::{is_finished, Storage};

verus! {

/// Relies on rand: `Uniform::new(low, high)` samples uniformly from the
/// half-open range `[low, high)` and panics when `low >= high`;
/// `Distribution::sample` with `thread_rng` draws one value from it.
#[verifier::external_body]
fn draw_uniform(low: i64, high: i64) -> (r: i64)
    requires
        low < high,
    ensures
        low <= r < high,
{
    Uniform::new(low, high).sample(&mut rand::thread_rng())
}

/// One trial's execution context. It holds no trial state of its own: all
/// state lives in the store it carries.
pub struct Trial<S: Storage> {
    storage: S,
    trial_id: usize,
    study_id: u128,
}

impl<S: Storage> Trial<S> {
    pub closed spec fn spec_study_id(&self) -> u128 {
        self.study_id
    }

    pub closed spec fn spec_trial_id(&self) -> usize {
        self.trial_id
    }

    /// The carried store's contents.
    pub closed spec fn store(&self) -> Map<(u128, usize), TrialRec> {
        self.storage.recs()
    }

    pub closed spec fn store_inv(&self) -> bool {
        self.storage.inv()
    }

    /// The key this context is scoped to.
    pub open spec fn key(&self) -> (u128, usize) {
        (self.spec_study_id(), self.spec_trial_id())
    }

    /// A live context: the store is sound and this trial is not complete.
    pub open spec fn wf(&self) -> bool {
        self.store_inv() && !is_finished(self.store(), self.key())
    }

    /// Binds a (study, trial) pair to a storage handle.
    pub fn new(storage: S, study_id: u128, trial_id: usize) -> (t: Self)
        requires
            storage.inv(),
            !is_finished(storage.recs(), (study_id, trial_id)),
        ensures
            t.wf(),
            t.spec_study_id() == study_id,
            t.spec_trial_id() == trial_id,
            t.store() == storage.recs(),
    {
        Trial { storage, trial_id, study_id }
    }

    pub fn study_id(&self) -> (r: u128)
        ensures
            r == self.spec_study_id(),
    {
        self.study_id
    }

    pub fn trial_id(&self) -> (r: usize)
        ensures
            r == self.spec_trial_id(),
    {
        self.trial_id
    }

    /// Consumes the context and hands the storage handle back.
    pub fn into_storage(self) -> (s: S)
        ensures
            s.recs() == self.store(),
            self.store_inv() ==> s.inv(),
    {
        self.storage
    }

}

impl<S: Storage> Sampler for Trial<S> {
    open spec fn sampler_store(&self) -> Map<(u128, usize), TrialRec> {
        self.store()
    }

    open spec fn sampler_key(&self) -> (u128, usize) {
        self.key()
    }

    open spec fn sampler_inv(&self) -> bool {
        self.wf()
    }

    fn sample_uniform(&mut self, name: &str, low: i64, high: i64) -> (r: i64) {
        let v = draw_uniform(low, high);
        let res = self.storage.set_trial_param(
            self.study_id,
            self.trial_id,
            name,
            ParamValue::Int(v),
            "uniform",
        );
        match res {
            Ok(()) => v,
            Err(_) => {
                assert(false);
                v
            },
        }
    }
}

/// What the objective boundary preserves: the returned context is the same
/// trial, still live, over a store that differs from the one handed in at
/// most at this trial's own key.
pub open spec fn objective_ok<S: Storage>(t: Trial<S>, t2: Trial<S>) -> bool {
    &&& t2.wf()
    &&& t2.spec_study_id() == t.spec_study_id()
    &&& t2.spec_trial_id() == t.spec_trial_id()
    &&& forall|k: (u128, usize)|
        k != t.key() ==> ((#[trigger] t2.store().contains_key(k)) <==> t.store().contains_key(k))
            && (t.store().contains_key(k) ==> t2.store()[k] == t.store()[k])
}

} // verus!
