//! The study: orchestrates trial executions against a shared store,
//! finalizes their values, and reduces the records to the best trial.

use vstd::prelude::*;

use crate::frozen_trial::{TrialData, TrialRec};
use crate::storage::{is_finished, Storage, StorageError};
use crate::trial::{objective_ok, Trial};

verus! {

/// Relies on uuid: `Uuid::new_v4` draws a random version-4 identifier and
/// `as_u128` is that identifier as an integer. Of a random draw nothing is
/// promised.
#[verifier::external_body]
fn fresh_study_id() -> u128 {
    uuid::Uuid::new_v4().as_u128()
}

/// How one trial of an optimize call ended.
#[derive(PartialEq, Eq, Debug)]
pub enum TrialOutcome {
    /// The objective returned this value and it was durably recorded.
    Completed(i64),
    /// The objective itself failed, with its message; the trial never
    /// completed.
    ObjectiveFailed(String),
    /// The objective returned a value but the trial had no record to
    /// finalize: it never sampled, so the value-write was refused.
    NotStarted,
}

/// A study: an identifier and the store that holds its trials' records.
pub struct StudyInstance<S: Storage> {
    id: u128,
    storage: S,
}

impl<S: Storage> StudyInstance<S> {
    pub closed spec fn spec_id(&self) -> u128 {
        self.id
    }

    /// The contents of the study's store.
    pub closed spec fn recs(&self) -> Map<(u128, usize), TrialRec> {
        self.storage.recs()
    }

    pub closed spec fn inv(&self) -> bool {
        self.storage.inv()
    }

    /// A study over the given store, under a fresh random identifier.
    pub fn new(storage: S) -> (s: Self)
        requires
            storage.inv(),
        ensures
            s.inv(),
            s.recs() == storage.recs(),
    {
        StudyInstance { id: fresh_study_id(), storage }
    }

    /// A study over the given store, under a caller-chosen identifier.
    pub fn with_id(storage: S, id: u128) -> (s: Self)
        requires
            storage.inv(),
        ensures
            s.inv(),
            s.spec_id() == id,
            s.recs() == storage.recs(),
    {
        StudyInstance { id, storage }
    }

    pub fn id(&self) -> (r: u128)
        ensures
            r == self.spec_id(),
    {
        self.id
    }

    /// A view of the study's store.
    pub fn storage(&self) -> (r: &S)
        ensures
            r.recs() == self.recs(),
            self.inv() ==> r.inv(),
    {
        &self.storage
    }

    /// The best trial of this study: a complete record with the maximum
    /// value, or nothing where no trial has completed. An in-progress
    /// trial is never reported, even where it is the only one. Among equal
    /// maxima the first-seen record, in the store's enumeration order, is
    /// kept; the contract pins only that the result is maximal.
    pub fn get_best_trial(&self) -> (r: Option<TrialData>)
        requires
            self.inv(),
        ensures
            match r {
                Some(b) => {
                    &&& b.spec_study_id() == self.spec_id()
                    &&& b.wf()
                    &&& self.recs().contains_key((self.spec_id(), b.spec_trial_id()))
                    &&& b@ == self.recs()[(self.spec_id(), b.spec_trial_id())]
                    &&& b@.value is Some
                    &&& forall|tid: usize|
                        #[trigger] is_finished(self.recs(), (self.spec_id(), tid))
                            ==> self.recs()[(self.spec_id(), tid)].value->Some_0
                            <= b@.value->Some_0
                },
                None => forall|tid: usize|
                    !(#[trigger] is_finished(self.recs(), (self.spec_id(), tid))),
            },
    {
        let trials = self.storage.get_trials(self.id);
        let n = trials.len();
        let mut best: Option<usize> = None;
        let mut i: usize = 0;
        while i < n
            invariant
                self.inv(),
                n == trials@.len(),
                i <= n,
                forall|m: int|
                    #![trigger trials@[m]]
                    0 <= m < trials@.len() ==> trials@[m].spec_study_id() == self.spec_id()
                        && trials@[m].wf() && self.recs().contains_key(
                        (self.spec_id(), trials@[m].spec_trial_id()),
                    ) && trials@[m]@ == self.recs()[(self.spec_id(), trials@[m].spec_trial_id())],
                forall|tid: usize|
                    #[trigger] self.recs().contains_key((self.spec_id(), tid)) ==> exists|m: int|
                        0 <= m < trials@.len() && (#[trigger] trials@[m].spec_trial_id()) == tid,
                match best {
                    Some(b) => b < i && trials@[b as int]@.value is Some && forall|m: int|
                        0 <= m < i && (#[trigger] trials@[m])@.value is Some
                            ==> trials@[m]@.value->Some_0 <= trials@[b as int]@.value->Some_0,
                    None => forall|m: int|
                        0 <= m < i ==> !((#[trigger] trials@[m])@.value is Some),
                },
            decreases n - i,
        {
            if trials[i].is_complete() {
                match best {
                    None => {
                        best = Some(i);
                    },
                    Some(b) => {
                        let vb = match trials[b].final_value() {
                            Some(v) => v,
                            None => {
                                assert(false);
                                0
                            },
                        };
                        let vi = match trials[i].final_value() {
                            Some(v) => v,
                            None => {
                                assert(false);
                                0
                            },
                        };
                        if vi > vb {
                            best = Some(i);
                        }
                    },
                }
            }
            i += 1;
        }
        match best {
            Some(b) => {
                let out = trials[b].duplicate();
                proof {
                    assert forall|tid: usize|
                        #[trigger] is_finished(self.recs(), (self.spec_id(), tid)) implies self.recs()[
                        (self.spec_id(), tid)
                    ].value->Some_0 <= out@.value->Some_0 by {
                        let m = choose|m: int|
                            0 <= m < trials@.len() && (#[trigger] trials@[m].spec_trial_id())
                                == tid;
                        assert(trials@[m]@ == self.recs()[(self.spec_id(), tid)]);
                        assert(trials@[m]@.value->Some_0 <= trials@[b as int]@.value->Some_0);
                    }
                }
                Some(out)
            },
            None => {
                proof {
                    assert forall|tid: usize|
                        !(#[trigger] is_finished(self.recs(), (self.spec_id(), tid))) by {
                        if is_finished(self.recs(), (self.spec_id(), tid)) {
                            let m = choose|m: int|
                                0 <= m < trials@.len() && (#[trigger] trials@[m].spec_trial_id())
                                    == tid;
                            assert(trials@[m]@ == self.recs()[(self.spec_id(), tid)]);
                        }
                    }
                }
                None
            },
        }
    }

    /// Runs `n_trials` trials, numbered 0 upward, each over a context handed
    /// to the objective, then writes every returned value back. It returns
    /// one outcome per trial, and only after every trial has either a
    /// complete record in the store or a recorded failure in the outcomes.
    ///
    /// The objective interacts with the system only through its own trial
    /// context, so every key outside this study's fresh trial numbers is
    /// left as it was.
    pub fn optimize<F: Fn(Trial<S>) -> (Trial<S>, Result<i64, String>)>(
        &mut self,
        f: F,
        n_trials: usize,
    ) -> (outcomes: Vec<TrialOutcome>)
        requires
            old(self).inv(),
            forall|t: Trial<S>| t.wf() ==> #[trigger] f.requires((t,)),
            forall|t: Trial<S>, out: (Trial<S>, Result<i64, String>)|
                #[trigger] f.ensures((t,), out) ==> objective_ok(t, out.0),
            forall|i: usize|
                i < n_trials ==> !(#[trigger] old(self).recs().contains_key(
                    (old(self).spec_id(), i),
                )),
        ensures
            final(self).inv(),
            final(self).spec_id() == old(self).spec_id(),
            outcomes@.len() == n_trials,
            forall|i: usize|
                i < n_trials ==> match #[trigger] outcomes@[i as int] {
                    TrialOutcome::Completed(v) => is_finished(
                        final(self).recs(),
                        (old(self).spec_id(), i),
                    ) && final(self).recs()[(old(self).spec_id(), i)].value == Some(v),
                    TrialOutcome::ObjectiveFailed(_) => !is_finished(
                        final(self).recs(),
                        (old(self).spec_id(), i),
                    ),
                    TrialOutcome::NotStarted => !final(self).recs().contains_key(
                        (old(self).spec_id(), i),
                    ),
                },
            forall|k: (u128, usize)|
                !(k.0 == old(self).spec_id() && k.1 < n_trials)
                    ==> ((#[trigger] final(self).recs().contains_key(k)) <==> old(self).recs().contains_key(k)) && (old(self).recs().contains_key(k) ==> final(self).recs()[k] == old(self).recs()[k]),
    {
        let ghost sid = self.id;
        let ghost m0 = self.storage.recs();
        let mut store: S = Storage::new();
        core::mem::swap(&mut store, &mut self.storage);
        proof {
            assert(store.recs() == m0);
            assert forall|j: usize| j < n_trials implies !(#[trigger] m0.contains_key(
                (sid, j),
            )) by {
                assert(!old(self).recs().contains_key((old(self).spec_id(), j)));
            }
        }
        let mut results: Vec<Result<i64, String>> = Vec::new();
        let mut i: usize = 0;
        while i < n_trials
            invariant
                i <= n_trials,
                results@.len() == i,
                store.inv(),
                self.id == sid,
                forall|t: Trial<S>| t.wf() ==> #[trigger] f.requires((t,)),
                forall|t: Trial<S>, out: (Trial<S>, Result<i64, String>)|
                    #[trigger] f.ensures((t,), out) ==> objective_ok(t, out.0),
                forall|j: usize|
                    i <= j < n_trials ==> !(#[trigger] store.recs().contains_key((sid, j))),
                forall|j: usize| j < i ==> !(#[trigger] is_finished(store.recs(), (sid, j))),
                forall|k: (u128, usize)|
                    !(k.0 == sid && k.1 < n_trials) ==> ((#[trigger] store.recs().contains_key(k))
                        <==> m0.contains_key(k)) && (m0.contains_key(k) ==> store.recs()[k]
                        == m0[k]),
            decreases n_trials - i,
        {
            let t = Trial::new(store, self.id, i);
            let ghost gt = t;
            let (t2, res) = f(t);
            proof {
                assert(f.ensures((gt,), (t2, res)));
                assert(objective_ok(gt, t2));
            }
            store = t2.into_storage();
            results.push(res);
            proof {
                assert(store.recs() == t2.store());
                assert(gt.key() == (sid, i));
                assert forall|j: usize| j < i + 1 implies !(#[trigger] is_finished(
                    store.recs(),
                    (sid, j),
                )) by {
                    if j < i {
                        let k = (sid, j);
                        assert(k != gt.key());
                        assert((t2.store().contains_key(k) <==> gt.store().contains_key(k)) && (
                        gt.store().contains_key(k) ==> t2.store()[k] == gt.store()[k]));
                        assert(!is_finished(gt.store(), k));
                    } else {
                        assert(!is_finished(t2.store(), gt.key()));
                    }
                }
                assert forall|j: usize| i + 1 <= j < n_trials implies !(
                #[trigger] store.recs().contains_key((sid, j))) by {
                    let k = (sid, j);
                    assert(k != gt.key());
                    assert(t2.store().contains_key(k) <==> gt.store().contains_key(k));
                    assert(!gt.store().contains_key(k));
                }
                assert forall|k: (u128, usize)| !(k.0 == sid && k.1 < n_trials) implies ((
                #[trigger] store.recs().contains_key(k)) <==> m0.contains_key(k)) && (
                m0.contains_key(k) ==> store.recs()[k] == m0[k]) by {
                    assert(i < n_trials);
                    assert(k != gt.key());
                    assert(t2.store().contains_key(k) <==> gt.store().contains_key(k));
                    assert(gt.store().contains_key(k) ==> t2.store()[k] == gt.store()[k]);
                    assert(gt.store().contains_key(k) <==> m0.contains_key(k));
                    assert(m0.contains_key(k) ==> gt.store()[k] == m0[k]);
                }
            }
            i += 1;
        }
        let mut outcomes: Vec<TrialOutcome> = Vec::new();
        let mut i: usize = 0;
        while i < n_trials
            invariant
                i <= n_trials,
                outcomes@.len() == i,
                results@.len() == n_trials,
                store.inv(),
                self.id == sid,
                forall|j: usize|
                    i <= j < n_trials ==> !(#[trigger] is_finished(store.recs(), (sid, j))),
                forall|j: usize|
                    j < i ==> match #[trigger] outcomes@[j as int] {
                        TrialOutcome::Completed(v) => is_finished(store.recs(), (sid, j))
                            && store.recs()[(sid, j)].value == Some(v),
                        TrialOutcome::ObjectiveFailed(_) => !is_finished(store.recs(), (sid, j)),
                        TrialOutcome::NotStarted => !store.recs().contains_key((sid, j)),
                    },
                forall|k: (u128, usize)|
                    !(k.0 == sid && k.1 < n_trials) ==> ((#[trigger] store.recs().contains_key(k))
                        <==> m0.contains_key(k)) && (m0.contains_key(k) ==> store.recs()[k]
                        == m0[k]),
            decreases n_trials - i,
        {
            let ghost mpre = store.recs();
            match &results[i] {
                Ok(v) => {
                    let w = store.set_trial_value(self.id, i, *v);
                    match w {
                        Ok(()) => {
                            outcomes.push(TrialOutcome::Completed(*v));
                        },
                        Err(StorageError::TrialNotFound) => {
                            outcomes.push(TrialOutcome::NotStarted);
                        },
                        Err(StorageError::AlreadyComplete) => {
                            assert(false);
                            outcomes.push(TrialOutcome::NotStarted);
                        },
                        Err(StorageError::DecodeError) => {
                            assert(false);
                            outcomes.push(TrialOutcome::NotStarted);
                        },
                    }
                },
                Err(e) => {
                    outcomes.push(TrialOutcome::ObjectiveFailed(e.clone()));
                },
            }
            proof {
                assert forall|j: usize| i + 1 <= j < n_trials implies !(#[trigger] is_finished(
                    store.recs(),
                    (sid, j),
                )) by {
                    assert((sid, j) != (sid, i));
                    assert(!is_finished(mpre, (sid, j)));
                }
                assert forall|j: usize| j < i + 1 implies (match #[trigger] outcomes@[j as int] {
                    TrialOutcome::Completed(v) => is_finished(store.recs(), (sid, j))
                        && store.recs()[(sid, j)].value == Some(v),
                    TrialOutcome::ObjectiveFailed(_) => !is_finished(store.recs(), (sid, j)),
                    TrialOutcome::NotStarted => !store.recs().contains_key((sid, j)),
                }) by {
                    if j < i {
                        assert((sid, j) != (sid, i));
                    }
                }
                assert forall|k: (u128, usize)| !(k.0 == sid && k.1 < n_trials) implies ((
                #[trigger] store.recs().contains_key(k)) <==> m0.contains_key(k)) && (
                m0.contains_key(k) ==> store.recs()[k] == m0[k]) by {
                    assert(k != (sid, i));
                }
            }
            i += 1;
        }
        self.storage = store;
        outcomes
    }
}

} // verus!
