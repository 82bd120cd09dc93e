//! The frozen form of a trial: the record a store keeps per (study, trial),
//! together with its mathematical model.

use vstd::prelude::*;

use crate::storage::StorageError;

verus! {

/// A parameter value in its self-describing stored form.
///
/// The store is typed at the API boundary but erased at rest, so the value
/// carries its own kind: an integer or a piece of text.
#[derive(PartialEq, Eq, Debug)]
pub enum ParamValue {
    Int(i64),
    Text(String),
}

/// One sampled parameter as it is persisted: the value together with the
/// name of the distribution it was drawn from.
pub struct ParamData<T> {
    pub value: T,
    pub dist_name: String,
}

/// The model of one stored parameter: its value and the name of the
/// distribution it was drawn from.
#[verifier::ext_equal]
pub ghost struct ParamRec {
    pub value: ParamValue,
    pub dist_name: Seq<char>,
}

/// The model of one trial record: the parameters sampled so far, keyed by
/// name, and the final value, present exactly when the trial is complete.
#[verifier::ext_equal]
pub ghost struct TrialRec {
    pub params: Map<Seq<char>, ParamRec>,
    pub value: Option<i64>,
}

/// The model of a parameter entry.
pub open spec fn param_rec(p: ParamData<ParamValue>) -> ParamRec {
    ParamRec { value: p.value, dist_name: p.dist_name@ }
}

/// The parameters of a trial as a map from name to stored parameter.
/// A later entry under the same name shadows an earlier one.
pub open spec fn param_map(s: Seq<(String, ParamData<ParamValue>)>) -> Map<Seq<char>, ParamRec>
    decreases s.len(),
{
    if s.len() == 0 {
        Map::<Seq<char>, ParamRec>::empty()
    } else {
        param_map(s.drop_last()).insert(s.last().0@, param_rec(s.last().1))
    }
}

/// Parameter lists keep at most one entry per name.
pub open spec fn params_distinct(s: Seq<(String, ParamData<ParamValue>)>) -> bool {
    forall|i: int, j: int| 0 <= i < j < s.len() ==> s[i].0@ != s[j].0@
}

/// A record that holds no parameters and no value yet.
pub open spec fn empty_rec() -> TrialRec {
    TrialRec { params: Map::<Seq<char>, ParamRec>::empty(), value: None }
}

/// The record after one parameter has been set: the name is bound to the
/// new entry, every other binding stays, and the value is untouched.
pub open spec fn with_param(r: TrialRec, name: Seq<char>, p: ParamRec) -> TrialRec {
    TrialRec { params: r.params.insert(name, p), value: r.value }
}

/// The record after its final value has been recorded.
pub open spec fn completed(r: TrialRec, v: i64) -> TrialRec {
    TrialRec { params: r.params, value: Some(v) }
}

pub proof fn lemma_param_map_contains(s: Seq<(String, ParamData<ParamValue>)>)
    ensures
        forall|k: Seq<char>|
            param_map(s).contains_key(k) <==> exists|i: int|
                0 <= i < s.len() && (#[trigger] s[i].0@) == k,
    decreases s.len(),
{
    if s.len() > 0 {
        lemma_param_map_contains(s.drop_last());
        assert forall|k: Seq<char>| param_map(s).contains_key(k) implies exists|i: int|
            0 <= i < s.len() && (#[trigger] s[i].0@) == k by {
            if k == s.last().0@ {
                assert(s[s.len() - 1].0@ == k);
            } else {
                assert(param_map(s.drop_last()).contains_key(k));
                let i = choose|i: int| 0 <= i < s.drop_last().len() && (#[trigger] s.drop_last()[i].0@) == k;
                assert(s.drop_last()[i] == s[i]);
                assert(s[i].0@ == k);
            }
        }
        assert forall|k: Seq<char>|
            (exists|i: int| 0 <= i < s.len() && (#[trigger] s[i].0@) == k) implies param_map(
            s,
        ).contains_key(k) by {
            let i = choose|i: int| 0 <= i < s.len() && (#[trigger] s[i].0@) == k;
            if i < s.len() - 1 {
                assert(s.drop_last()[i] == s[i]);
                assert(s.drop_last()[i].0@ == k);
                assert(param_map(s.drop_last()).contains_key(k));
            } else {
                assert(k == s.last().0@);
            }
        }
    }
}

pub proof fn lemma_param_map_at(s: Seq<(String, ParamData<ParamValue>)>, i: int)
    requires
        params_distinct(s),
        0 <= i < s.len(),
    ensures
        param_map(s).contains_key(s[i].0@),
        param_map(s)[s[i].0@] == param_rec(s[i].1),
    decreases s.len(),
{
    if i < s.len() - 1 {
        assert(s.drop_last()[i] == s[i]);
        lemma_param_map_at(s.drop_last(), i);
        assert(s[i].0@ != s.last().0@);
    }
}

pub proof fn lemma_param_map_update(
    s: Seq<(String, ParamData<ParamValue>)>,
    i: int,
    e: (String, ParamData<ParamValue>),
)
    requires
        params_distinct(s),
        0 <= i < s.len(),
        e.0@ == s[i].0@,
    ensures
        params_distinct(s.update(i, e)),
        param_map(s.update(i, e)) =~= param_map(s).insert(e.0@, param_rec(e.1)),
    decreases s.len(),
{
    let t = s.update(i, e);
    assert forall|p: int, q: int| 0 <= p < q < t.len() implies t[p].0@ != t[q].0@ by {
        assert(s[p].0@ != s[q].0@);
    }
    if i == s.len() - 1 {
        assert(t.drop_last() =~= s.drop_last());
    } else {
        assert(t.drop_last() =~= s.drop_last().update(i, e));
        assert(s.drop_last()[i] == s[i]);
        lemma_param_map_update(s.drop_last(), i, e);
        assert(s[i].0@ != s.last().0@);
    }
}

pub proof fn lemma_param_map_push(
    s: Seq<(String, ParamData<ParamValue>)>,
    e: (String, ParamData<ParamValue>),
)
    requires
        params_distinct(s),
        forall|i: int| 0 <= i < s.len() ==> (#[trigger] s[i].0@) != e.0@,
    ensures
        params_distinct(s.push(e)),
        param_map(s.push(e)) == param_map(s).insert(e.0@, param_rec(e.1)),
{
    assert(s.push(e).drop_last() =~= s);
    assert forall|p: int, q: int| 0 <= p < q < s.push(e).len() implies s.push(e)[p].0@ != s.push(
        e,
    )[q].0@ by {
        if q < s.len() {
            assert(s[p].0@ != s[q].0@);
        } else {
            assert(s[p].0@ != e.0@);
        }
    }
}

/// A trial record as a store keeps it: still running and accumulating
/// parameters, or complete with its final value and its parameters frozen.
pub enum TrialData {
    Complete {
        study_id: u128,
        trial_id: usize,
        trial_param: Vec<(String, ParamData<ParamValue>)>,
        trial_value: i64,
    },
    InProgress {
        study_id: u128,
        trial_id: usize,
        trial_params: Vec<(String, ParamData<ParamValue>)>,
    },
}

impl View for TrialData {
    type V = TrialRec;

    open spec fn view(&self) -> TrialRec {
        TrialRec {
            params: param_map(self.spec_params()),
            value: match *self {
                TrialData::Complete { trial_value, .. } => Some(trial_value),
                TrialData::InProgress { .. } => None,
            },
        }
    }
}

impl TrialData {
    pub open spec fn spec_study_id(&self) -> u128 {
        match *self {
            TrialData::Complete { study_id, .. } => study_id,
            TrialData::InProgress { study_id, .. } => study_id,
        }
    }

    pub open spec fn spec_trial_id(&self) -> usize {
        match *self {
            TrialData::Complete { trial_id, .. } => trial_id,
            TrialData::InProgress { trial_id, .. } => trial_id,
        }
    }

    pub open spec fn spec_params(&self) -> Seq<(String, ParamData<ParamValue>)> {
        match self {
            TrialData::Complete { trial_param, .. } => trial_param@,
            TrialData::InProgress { trial_params, .. } => trial_params@,
        }
    }

    /// The parameter list never holds two entries under one name.
    pub open spec fn wf(&self) -> bool {
        params_distinct(self.spec_params())
    }

    pub fn study_id(&self) -> (r: u128)
        ensures
            r == self.spec_study_id(),
    {
        match self {
            TrialData::Complete { study_id, .. } => *study_id,
            TrialData::InProgress { study_id, .. } => *study_id,
        }
    }

    pub fn trial_id(&self) -> (r: usize)
        ensures
            r == self.spec_trial_id(),
    {
        match self {
            TrialData::Complete { trial_id, .. } => *trial_id,
            TrialData::InProgress { trial_id, .. } => *trial_id,
        }
    }

    pub fn is_complete(&self) -> (r: bool)
        ensures
            r == (self@.value is Some),
    {
        match self {
            TrialData::Complete { .. } => true,
            TrialData::InProgress { .. } => false,
        }
    }

    /// The final value, present exactly when the trial is complete.
    pub fn final_value(&self) -> (r: Option<i64>)
        ensures
            r == self@.value,
    {
        match self {
            TrialData::Complete { trial_value, .. } => Some(*trial_value),
            TrialData::InProgress { .. } => None,
        }
    }

    /// Looks the named parameter up, exactly as the record's model binds it.
    pub fn param(&self, name: &str) -> (r: Option<ParamData<ParamValue>>)
        requires
            self.wf(),
        ensures
            match r {
                Some(p) => self@.params.contains_key(name@) && param_rec(p) == self@.params[name@],
                None => !self@.params.contains_key(name@),
            },
    {
        let wanted: String = name.to_owned();
        let entries: &Vec<(String, ParamData<ParamValue>)> = match self {
            TrialData::Complete { trial_param, .. } => trial_param,
            TrialData::InProgress { trial_params, .. } => trial_params,
        };
        let ghost s = self.spec_params();
        proof {
            lemma_param_map_contains(s);
        }
        let n = entries.len();
        let mut i: usize = 0;
        while i < n
            invariant
                n == s.len(),
                entries@ == s,
                s == self.spec_params(),
                params_distinct(s),
                wanted@ == name@,
                i <= n,
                forall|j: int| 0 <= j < i ==> (#[trigger] s[j].0@) != name@,
                forall|k: Seq<char>|
                    param_map(s).contains_key(k) <==> exists|j: int|
                        0 <= j < s.len() && (#[trigger] s[j].0@) == k,
            decreases n - i,
        {
            if entries[i].0.eq(&wanted) {
                proof {
                    assert(s[i as int].0@ == name@);
                    lemma_param_map_at(s, i as int);
                }
                return Some(entries[i].1.duplicate());
            }
            i += 1;
        }
        None
    }

    /// The named parameter read back at integer type. The store is erased
    /// at rest, so a stored value of another kind is a reader/writer type
    /// mismatch and fails to decode.
    pub fn int_param(&self, name: &str) -> (r: Result<Option<i64>, StorageError>)
        requires
            self.wf(),
        ensures
            match r {
                Ok(ov) => match ov {
                    Some(v) => self@.params.contains_key(name@) && self@.params[name@].value
                        == ParamValue::Int(v),
                    None => !self@.params.contains_key(name@),
                },
                Err(e) => e == StorageError::DecodeError
                    && self@.params.contains_key(name@) && !(self@.params[name@].value is Int),
            },
    {
        match self.param(name) {
            None => Ok(None),
            Some(p) => match p.value {
                ParamValue::Int(v) => Ok(Some(v)),
                ParamValue::Text(_) => Err(StorageError::DecodeError),
            },
        }
    }

    /// An exact copy of the record, component for component.
    pub fn duplicate(&self) -> (r: TrialData)
        ensures
            r.spec_study_id() == self.spec_study_id(),
            r.spec_trial_id() == self.spec_trial_id(),
            r.spec_params() == self.spec_params(),
            r@ == self@,
            r.wf() == self.wf(),
    {
        match self {
            TrialData::Complete { study_id, trial_id, trial_param, trial_value } => {
                TrialData::Complete {
                    study_id: *study_id,
                    trial_id: *trial_id,
                    trial_param: clone_params(trial_param),
                    trial_value: *trial_value,
                }
            },
            TrialData::InProgress { study_id, trial_id, trial_params } => {
                TrialData::InProgress {
                    study_id: *study_id,
                    trial_id: *trial_id,
                    trial_params: clone_params(trial_params),
                }
            },
        }
    }
}

/// An exact copy of a parameter list.
pub fn clone_params(v: &Vec<(String, ParamData<ParamValue>)>) -> (r: Vec<
    (String, ParamData<ParamValue>),
>)
    ensures
        r@ == v@,
{
    let mut r: Vec<(String, ParamData<ParamValue>)> = Vec::new();
    let n = v.len();
    let mut i: usize = 0;
    while i < n
        invariant
            n == v.len(),
            i <= n,
            r@.len() == i,
            forall|j: int| 0 <= j < i ==> r@[j] == v@[j],
        decreases n - i,
    {
        let name = v[i].0.clone();
        let p = v[i].1.duplicate();
        r.push((name, p));
        i += 1;
    }
    proof {
        assert(r@ =~= v@);
    }
    r
}

impl ParamValue {
    /// An exact copy of the value.
    pub fn duplicate(&self) -> (r: ParamValue)
        ensures
            r == *self,
    {
        match self {
            ParamValue::Int(v) => ParamValue::Int(*v),
            ParamValue::Text(s) => ParamValue::Text(s.clone()),
        }
    }
}

impl ParamData<ParamValue> {
    /// An exact copy of the stored parameter.
    pub fn duplicate(&self) -> (r: ParamData<ParamValue>)
        ensures
            r == *self,
    {
        ParamData { value: self.value.duplicate(), dist_name: self.dist_name.clone() }
    }
}

} // verus!
