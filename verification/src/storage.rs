//! The record store: a keyed map from (study, trial) to one trial record,
//! with atomic read-modify-write transitions.

use vstd::prelude::*;

use crate::frozen_trial::{
    clone_params, completed, empty_rec, lemma_param_map_push, lemma_param_map_update, param_map,
    param_rec, params_distinct, with_param, ParamData, ParamRec, ParamValue, TrialData, TrialRec,
};

verus! {

/// Why a store operation was refused.
#[derive(Clone, Copy, PartialEq, Eq, Structural, Debug)]
pub enum StorageError {
    /// A param-set or value-set reached a trial that is already complete.
    AlreadyComplete,
    /// A value-set reached a trial that was never started.
    TrialNotFound,
    /// A stored value does not have the type the reader asked for.
    DecodeError,
}

/// The key under which a store holds a record: study then trial.
pub open spec fn slot_key(t: TrialData) -> (u128, usize) {
    (t.spec_study_id(), t.spec_trial_id())
}

/// A sequence of records as a map from key to record model.
/// A later record under the same key shadows an earlier one.
pub open spec fn slots(s: Seq<TrialData>) -> Map<(u128, usize), TrialRec>
    decreases s.len(),
{
    if s.len() == 0 {
        Map::<(u128, usize), TrialRec>::empty()
    } else {
        slots(s.drop_last()).insert(slot_key(s.last()), s.last()@)
    }
}

/// No two records share a key.
pub open spec fn keys_distinct(s: Seq<TrialData>) -> bool {
    forall|i: int, j: int| 0 <= i < j < s.len() ==> slot_key(s[i]) != slot_key(s[j])
}

/// The key holds a record whose final value has been recorded.
pub open spec fn is_finished(m: Map<(u128, usize), TrialRec>, key: (u128, usize)) -> bool {
    m.contains_key(key) && m[key].value is Some
}

/// The record under the key, or a fresh empty one where none exists.
pub open spec fn rec_or_empty(m: Map<(u128, usize), TrialRec>, key: (u128, usize)) -> TrialRec {
    if m.contains_key(key) {
        m[key]
    } else {
        empty_rec()
    }
}

/// The store after a param-set: on a finished trial nothing changes; else
/// the record is read or created and the parameter merged in.
pub open spec fn param_set_result(
    m: Map<(u128, usize), TrialRec>,
    key: (u128, usize),
    name: Seq<char>,
    p: ParamRec,
) -> Map<(u128, usize), TrialRec> {
    if is_finished(m, key) {
        m
    } else {
        m.insert(key, with_param(rec_or_empty(m, key), name, p))
    }
}

/// The store after a value-set: on a finished or absent trial nothing
/// changes; else the record makes its one transition to complete.
pub open spec fn value_set_result(
    m: Map<(u128, usize), TrialRec>,
    key: (u128, usize),
    value: i64,
) -> Map<(u128, usize), TrialRec> {
    if is_finished(m, key) || !m.contains_key(key) {
        m
    } else {
        m.insert(key, completed(m[key], value))
    }
}

pub proof fn lemma_slots_contains(s: Seq<TrialData>)
    ensures
        forall|k: (u128, usize)|
            slots(s).contains_key(k) <==> exists|i: int|
                0 <= i < s.len() && (#[trigger] slot_key(s[i])) == k,
    decreases s.len(),
{
    if s.len() > 0 {
        lemma_slots_contains(s.drop_last());
        assert forall|k: (u128, usize)| slots(s).contains_key(k) implies exists|i: int|
            0 <= i < s.len() && (#[trigger] slot_key(s[i])) == k by {
            if k == slot_key(s.last()) {
                assert(slot_key(s[s.len() - 1]) == k);
            } else {
                assert(slots(s.drop_last()).contains_key(k));
                let i = choose|i: int|
                    0 <= i < s.drop_last().len() && (#[trigger] slot_key(s.drop_last()[i])) == k;
                assert(s.drop_last()[i] == s[i]);
                assert(slot_key(s[i]) == k);
            }
        }
        assert forall|k: (u128, usize)|
            (exists|i: int| 0 <= i < s.len() && (#[trigger] slot_key(s[i])) == k) implies slots(
            s,
        ).contains_key(k) by {
            let i = choose|i: int| 0 <= i < s.len() && (#[trigger] slot_key(s[i])) == k;
            if i < s.len() - 1 {
                assert(s.drop_last()[i] == s[i]);
                assert(slot_key(s.drop_last()[i]) == k);
                assert(slots(s.drop_last()).contains_key(k));
            } else {
                assert(k == slot_key(s.last()));
            }
        }
    }
}

pub proof fn lemma_slots_at(s: Seq<TrialData>, i: int)
    requires
        keys_distinct(s),
        0 <= i < s.len(),
    ensures
        slots(s).contains_key(slot_key(s[i])),
        slots(s)[slot_key(s[i])] == s[i]@,
    decreases s.len(),
{
    if i < s.len() - 1 {
        assert(s.drop_last()[i] == s[i]);
        lemma_slots_at(s.drop_last(), i);
        assert(slot_key(s[i]) != slot_key(s.last()));
    }
}

pub proof fn lemma_slots_update(s: Seq<TrialData>, i: int, e: TrialData)
    requires
        keys_distinct(s),
        0 <= i < s.len(),
        slot_key(e) == slot_key(s[i]),
    ensures
        keys_distinct(s.update(i, e)),
        slots(s.update(i, e)) =~= slots(s).insert(slot_key(e), e@),
    decreases s.len(),
{
    let t = s.update(i, e);
    assert forall|p: int, q: int| 0 <= p < q < t.len() implies slot_key(t[p]) != slot_key(
        t[q],
    ) by {
        assert(slot_key(s[p]) != slot_key(s[q]));
    }
    if i == s.len() - 1 {
        assert(t.drop_last() =~= s.drop_last());
    } else {
        assert(t.drop_last() =~= s.drop_last().update(i, e));
        assert(s.drop_last()[i] == s[i]);
        lemma_slots_update(s.drop_last(), i, e);
        assert(slot_key(s[i]) != slot_key(s.last()));
    }
}

pub proof fn lemma_slots_push(s: Seq<TrialData>, e: TrialData)
    requires
        keys_distinct(s),
        forall|i: int| 0 <= i < s.len() ==> (#[trigger] slot_key(s[i])) != slot_key(e),
    ensures
        keys_distinct(s.push(e)),
        slots(s.push(e)) == slots(s).insert(slot_key(e), e@),
{
    assert(s.push(e).drop_last() =~= s);
    assert forall|p: int, q: int| 0 <= p < q < s.push(e).len() implies slot_key(
        s.push(e)[p],
    ) != slot_key(s.push(e)[q]) by {
        if q < s.len() {
            assert(slot_key(s[p]) != slot_key(s[q]));
        } else {
            assert(slot_key(s[p]) != slot_key(e));
        }
    }
}

/// The contract every record store satisfies: a map from (study, trial) key
/// to one trial record, each operation one atomic read-modify-write.
pub trait Storage: Sized {
    /// The store's internal invariant.
    spec fn inv(&self) -> bool;

    /// The store's contents as a map from key to record model.
    spec fn recs(&self) -> Map<(u128, usize), TrialRec>;

    /// An empty store.
    fn new() -> (s: Self)
        ensures
            s.inv(),
            s.recs() == Map::<(u128, usize), TrialRec>::empty(),
    ;

    /// The current record under the key, or nothing where none exists.
    fn get_trial(&self, study_id: u128, trial_id: usize) -> (r: Option<TrialData>)
        requires
            self.inv(),
        ensures
            match r {
                Some(t) => self.recs().contains_key((study_id, trial_id)) && t@ == self.recs()[
                    (study_id, trial_id)
                ] && t.spec_study_id() == study_id && t.spec_trial_id() == trial_id && t.wf(),
                None => !self.recs().contains_key((study_id, trial_id)),
            },
    ;

    /// Every record of the study, each trial exactly once, order not
    /// significant.
    fn get_trials(&self, study_id: u128) -> (r: Vec<TrialData>)
        requires
            self.inv(),
        ensures
            forall|i: int|
                #![trigger r@[i]]
                0 <= i < r@.len() ==> r@[i].spec_study_id() == study_id && r@[i].wf()
                    && self.recs().contains_key((study_id, r@[i].spec_trial_id())) && r@[i]@
                    == self.recs()[(study_id, r@[i].spec_trial_id())],
            forall|tid: usize|
                #[trigger] self.recs().contains_key((study_id, tid)) ==> exists|i: int|
                    0 <= i < r@.len() && (#[trigger] r@[i].spec_trial_id()) == tid,
            forall|i: int, j: int|
                0 <= i < j < r@.len() ==> r@[i].spec_trial_id() != r@[j].spec_trial_id(),
    ;

    /// Atomically reads-or-creates the record and merges the parameter in,
    /// overwriting any prior entry under the same name. Refused exactly when
    /// the trial is already complete, and then the store is untouched.
    fn set_trial_param(
        &mut self,
        study_id: u128,
        trial_id: usize,
        name: &str,
        value: ParamValue,
        dist_name: &str,
    ) -> (r: Result<(), StorageError>)
        requires
            old(self).inv(),
        ensures
            final(self).inv(),
            final(self).recs() == param_set_result(
                old(self).recs(),
                (study_id, trial_id),
                name@,
                (ParamRec { value, dist_name: dist_name@ }),
            ),
            match r {
                Ok(()) => !is_finished(old(self).recs(), (study_id, trial_id)),
                Err(e) => e == StorageError::AlreadyComplete && is_finished(
                    old(self).recs(),
                    (study_id, trial_id),
                ),
            },
    ;

    /// Atomically performs the one allowed transition, in-progress to
    /// complete, preserving the params. Refused exactly when the trial is
    /// already complete or was never started, and then the store is
    /// untouched.
    fn set_trial_value(&mut self, study_id: u128, trial_id: usize, value: i64) -> (r: Result<
        (),
        StorageError,
    >)
        requires
            old(self).inv(),
        ensures
            final(self).inv(),
            final(self).recs() == value_set_result(old(self).recs(), (study_id, trial_id), value),
            match r {
                Ok(()) => old(self).recs().contains_key((study_id, trial_id)) && !is_finished(
                    old(self).recs(),
                    (study_id, trial_id),
                ),
                Err(StorageError::AlreadyComplete) => is_finished(
                    old(self).recs(),
                    (study_id, trial_id),
                ),
                Err(StorageError::TrialNotFound) => !old(self).recs().contains_key(
                    (study_id, trial_id),
                ),
                Err(StorageError::DecodeError) => false,
            },
    ;
}

/// The in-process store: one growable list of records, scanned by key.
pub struct InmemoryStorage {
    records: Vec<TrialData>,
}

impl InmemoryStorage {
    /// The index holding the key, or nothing where no record has it.
    fn find(&self, study_id: u128, trial_id: usize) -> (r: Option<usize>)
        ensures
            match r {
                Some(j) => j < self.records@.len() && slot_key(self.records@[j as int]) == (
                    study_id,
                    trial_id,
                ),
                None => forall|i: int|
                    0 <= i < self.records@.len() ==> (#[trigger] slot_key(self.records@[i])) != (
                        study_id,
                        trial_id,
                    ),
            },
    {
        let n = self.records.len();
        let mut i: usize = 0;
        while i < n
            invariant
                n == self.records@.len(),
                i <= n,
                forall|j: int|
                    0 <= j < i ==> (#[trigger] slot_key(self.records@[j])) != (study_id, trial_id),
            decreases n - i,
        {
            if self.records[i].study_id() == study_id && self.records[i].trial_id() == trial_id {
                return Some(i);
            }
            i += 1;
        }
        None
    }
}

/// Merges one parameter into a list: the entry under the name is replaced,
/// or a fresh one appended.
fn upsert_param(
    v: &Vec<(String, ParamData<ParamValue>)>,
    name: &str,
    value: ParamValue,
    dist_name: &str,
) -> (r: Vec<(String, ParamData<ParamValue>)>)
    requires
        params_distinct(v@),
    ensures
        params_distinct(r@),
        param_map(r@) == param_map(v@).insert(name@, (ParamRec { value, dist_name: dist_name@ })),
{
    let entry = (name.to_owned(), ParamData { value, dist_name: dist_name.to_owned() });
    let ghost ge = entry;
    let mut r = clone_params(v);
    let n = r.len();
    let mut i: usize = 0;
    while i < n
        invariant
            n == v@.len(),
            r@ == v@,
            params_distinct(v@),
            entry == ge,
            ge.0@ == name@,
            param_rec(ge.1) == (ParamRec { value, dist_name: dist_name@ }),
            i <= n,
            forall|j: int| 0 <= j < i ==> (#[trigger] v@[j].0@) != name@,
        decreases n - i,
    {
        if r[i].0.eq(&entry.0) {
            r[i] = entry;
            proof {
                lemma_param_map_update(v@, i as int, ge);
            }
            return r;
        }
        i += 1;
    }
    r.push(entry);
    proof {
        lemma_param_map_push(v@, ge);
    }
    r
}

impl Storage for InmemoryStorage {
    closed spec fn inv(&self) -> bool {
        keys_distinct(self.records@) && forall|i: int|
            0 <= i < self.records@.len() ==> (#[trigger] self.records@[i]).wf()
    }

    closed spec fn recs(&self) -> Map<(u128, usize), TrialRec> {
        slots(self.records@)
    }

    fn new() -> (s: Self) {
        let s = InmemoryStorage { records: Vec::new() };
        proof {
            assert(s.records@.len() == 0);
            assert(slots(s.records@) =~= Map::<(u128, usize), TrialRec>::empty());
        }
        s
    }

    fn get_trial(&self, study_id: u128, trial_id: usize) -> (r: Option<TrialData>) {
        proof {
            lemma_slots_contains(self.records@);
        }
        match self.find(study_id, trial_id) {
            Some(j) => {
                proof {
                    lemma_slots_at(self.records@, j as int);
                }
                Some(self.records[j].duplicate())
            },
            None => None,
        }
    }

    #[verifier::rlimit(50)]
    fn get_trials(&self, study_id: u128) -> (r: Vec<TrialData>) {
        proof {
            lemma_slots_contains(self.records@);
        }
        let mut r: Vec<TrialData> = Vec::new();
        let n = self.records.len();
        let mut i: usize = 0;
        while i < n
            invariant
                self.inv(),
                n == self.records@.len(),
                i <= n,
                forall|k: (u128, usize)|
                    slots(self.records@).contains_key(k) <==> exists|j: int|
                        0 <= j < self.records@.len() && (#[trigger] slot_key(self.records@[j]))
                            == k,
                forall|m: int|
                    #![trigger r@[m]]
                    0 <= m < r@.len() ==> r@[m].spec_study_id() == study_id && r@[m].wf()
                        && self.recs().contains_key((study_id, r@[m].spec_trial_id())) && r@[m]@
                        == self.recs()[(study_id, r@[m].spec_trial_id())],
                forall|m: int|
                    #![trigger r@[m].spec_trial_id()]
                    0 <= m < r@.len() ==> exists|j: int|
                        0 <= j < i && (#[trigger] slot_key(self.records@[j])) == (
                            study_id,
                            r@[m].spec_trial_id(),
                        ),
                forall|j: int|
                    0 <= j < i && (#[trigger] self.records@[j]).spec_study_id() == study_id
                        ==> exists|m: int|
                        0 <= m < r@.len() && (#[trigger] r@[m].spec_trial_id())
                            == self.records@[j].spec_trial_id(),
                forall|m1: int, m2: int|
                    0 <= m1 < m2 < r@.len() ==> r@[m1].spec_trial_id() != r@[m2].spec_trial_id(),
            decreases n - i,
        {
            if self.records[i].study_id() == study_id {
                proof {
                    lemma_slots_at(self.records@, i as int);
                }
                let t = self.records[i].duplicate();
                assert forall|m: int| 0 <= m < r@.len() implies (#[trigger] r@[m].spec_trial_id())
                    != t.spec_trial_id() by {
                    let j = choose|j: int|
                        0 <= j < i && (#[trigger] slot_key(self.records@[j])) == (
                            study_id,
                            r@[m].spec_trial_id(),
                        );
                    assert(slot_key(self.records@[j]) != slot_key(self.records@[i as int]));
                }
                let ghost r0 = r@;
                r.push(t);
                proof {
                    assert forall|m: int|
                        #![trigger r@[m].spec_trial_id()]
                        0 <= m < r@.len() implies exists|j: int|
                        0 <= j < i + 1 && (#[trigger] slot_key(self.records@[j])) == (
                            study_id,
                            r@[m].spec_trial_id(),
                        ) by {
                        if m < r0.len() {
                            assert(r@[m] == r0[m]);
                            let j = choose|j: int|
                                0 <= j < i && (#[trigger] slot_key(self.records@[j])) == (
                                    study_id,
                                    r0[m].spec_trial_id(),
                                );
                            assert(slot_key(self.records@[j]) == (
                                study_id,
                                r@[m].spec_trial_id(),
                            ));
                        } else {
                            assert(r@[m] == t);
                            assert(slot_key(self.records@[i as int]) == (
                                study_id,
                                r@[m].spec_trial_id(),
                            ));
                        }
                    }
                    assert forall|j: int|
                        0 <= j < i + 1 && (#[trigger] self.records@[j]).spec_study_id()
                            == study_id implies exists|m: int|
                        0 <= m < r@.len() && (#[trigger] r@[m].spec_trial_id())
                            == self.records@[j].spec_trial_id() by {
                        if j == i {
                            assert(r@[r@.len() - 1].spec_trial_id()
                                == self.records@[j].spec_trial_id());
                        } else {
                            let m = choose|m: int|
                                0 <= m < r0.len() && (#[trigger] r0[m].spec_trial_id())
                                    == self.records@[j].spec_trial_id();
                            assert(r@[m].spec_trial_id() == self.records@[j].spec_trial_id());
                        }
                    }
                }
            }
            i += 1;
        }
        r
    }

    fn set_trial_param(
        &mut self,
        study_id: u128,
        trial_id: usize,
        name: &str,
        value: ParamValue,
        dist_name: &str,
    ) -> (r: Result<(), StorageError>) {
        proof {
            lemma_slots_contains(self.records@);
        }
        match self.find(study_id, trial_id) {
            Some(j) => {
                proof {
                    lemma_slots_at(self.records@, j as int);
                }
                if self.records[j].is_complete() {
                    Err(StorageError::AlreadyComplete)
                } else {
                    let new_params = match &self.records[j] {
                        TrialData::InProgress { trial_params, .. } => upsert_param(
                            trial_params,
                            name,
                            value,
                            dist_name,
                        ),
                        TrialData::Complete { .. } => {
                            assert(false);
                            Vec::new()
                        },
                    };
                    let rec = TrialData::InProgress {
                        study_id,
                        trial_id,
                        trial_params: new_params,
                    };
                    let ghost grec = rec;
                    self.records[j] = rec;
                    proof {
                        lemma_slots_update(old(self).records@, j as int, grec);
                        assert(old(self).recs()[(study_id, trial_id)] == old(
                            self,
                        ).records@[j as int]@);
                        assert(grec@.params == param_map(
                            old(self).records@[j as int].spec_params(),
                        ).insert(name@, (ParamRec { value, dist_name: dist_name@ })));
                        assert(grec@ =~= with_param(
                            rec_or_empty(old(self).recs(), (study_id, trial_id)),
                            name@,
                            (ParamRec { value, dist_name: dist_name@ }),
                        ));
                    }
                    Ok(())
                }
            },
            None => {
                let entry = (name.to_owned(), ParamData { value, dist_name: dist_name.to_owned() });
                let ghost ge = entry;
                let mut trial_params: Vec<(String, ParamData<ParamValue>)> = Vec::new();
                trial_params.push(entry);
                let rec = TrialData::InProgress { study_id, trial_id, trial_params };
                let ghost grec = rec;
                self.records.push(rec);
                proof {
                    assert(!old(self).recs().contains_key((study_id, trial_id)));
                    lemma_slots_push(old(self).records@, grec);
                    let s = grec.spec_params();
                    assert(s =~= Seq::<(String, ParamData<ParamValue>)>::empty().push(ge));
                    assert(s.drop_last() =~= Seq::<(String, ParamData<ParamValue>)>::empty());
                    assert(s.last() == ge);
                    assert(param_map(s) == param_map(s.drop_last()).insert(
                        ge.0@,
                        param_rec(ge.1),
                    ));
                    assert(param_rec(ge.1) == (ParamRec { value, dist_name: dist_name@ }));
                    let target = with_param(
                        rec_or_empty(old(self).recs(), (study_id, trial_id)),
                        name@,
                        (ParamRec { value, dist_name: dist_name@ }),
                    );
                    assert(grec@.params =~= target.params);
                    assert(grec@.value == target.value);
                    assert(grec@ =~= target);
                }
                Ok(())
            },
        }
    }

    fn set_trial_value(&mut self, study_id: u128, trial_id: usize, value: i64) -> (r: Result<
        (),
        StorageError,
    >) {
        proof {
            lemma_slots_contains(self.records@);
        }
        match self.find(study_id, trial_id) {
            Some(j) => {
                proof {
                    lemma_slots_at(self.records@, j as int);
                }
                if self.records[j].is_complete() {
                    Err(StorageError::AlreadyComplete)
                } else {
                    let rec = match &self.records[j] {
                        TrialData::InProgress { study_id: sid, trial_id: tid, trial_params } => {
                            TrialData::Complete {
                                study_id: *sid,
                                trial_id: *tid,
                                trial_param: clone_params(trial_params),
                                trial_value: value,
                            }
                        },
                        TrialData::Complete { .. } => {
                            assert(false);
                            TrialData::Complete {
                                study_id,
                                trial_id,
                                trial_param: Vec::new(),
                                trial_value: value,
                            }
                        },
                    };
                    let ghost grec = rec;
                    self.records[j] = rec;
                    proof {
                        lemma_slots_update(old(self).records@, j as int, grec);
                        assert(grec@ =~= completed(
                            old(self).recs()[(study_id, trial_id)],
                            value,
                        ));
                    }
                    Ok(())
                }
            },
            None => Err(StorageError::TrialNotFound),
        }
    }
}

} // verus!
