//! The laws the store's transitions obey, stated over the same spec
//! functions the operation contracts use.

use vstd::prelude::*;

use crate::frozen_trial::{ParamRec, TrialRec};
use crate::storage::{is_finished, param_set_result, rec_or_empty, value_set_result};

verus! {

/// One write against the store, as the transition contracts describe it.
pub ghost enum StoreOp {
    SetParam { study_id: u128, trial_id: usize, name: Seq<char>, param: ParamRec },
    SetValue { study_id: u128, trial_id: usize, value: i64 },
}

impl StoreOp {
    pub open spec fn key(self) -> (u128, usize) {
        match self {
            StoreOp::SetParam { study_id, trial_id, .. } => (study_id, trial_id),
            StoreOp::SetValue { study_id, trial_id, .. } => (study_id, trial_id),
        }
    }
}

/// The store after one write, exactly as the contracts of the param-set and
/// value-set operations state it.
pub open spec fn apply_op(m: Map<(u128, usize), TrialRec>, op: StoreOp) -> Map<
    (u128, usize),
    TrialRec,
> {
    match op {
        StoreOp::SetParam { study_id, trial_id, name, param } => param_set_result(
            m,
            (study_id, trial_id),
            name,
            param,
        ),
        StoreOp::SetValue { study_id, trial_id, value } => value_set_result(
            m,
            (study_id, trial_id),
            value,
        ),
    }
}

/// The store after a sequence of writes, applied left to right.
pub open spec fn apply_ops(m: Map<(u128, usize), TrialRec>, ops: Seq<StoreOp>) -> Map<
    (u128, usize),
    TrialRec,
>
    decreases ops.len(),
{
    if ops.len() == 0 {
        m
    } else {
        apply_op(apply_ops(m, ops.drop_last()), ops.last())
    }
}

/// Completion is terminal: once a trial's record is complete, no sequence
/// of further param-sets or value-sets changes it — each such write on it
/// is the contracts' rejected case, and writes on other trials leave it
/// alone.
pub proof fn lemma_complete_is_terminal(
    m: Map<(u128, usize), TrialRec>,
    ops: Seq<StoreOp>,
    key: (u128, usize),
)
    requires
        is_finished(m, key),
    ensures
        is_finished(apply_ops(m, ops), key),
        apply_ops(m, ops)[key] == m[key],
    decreases ops.len(),
{
    if ops.len() > 0 {
        lemma_complete_is_terminal(m, ops.drop_last(), key);
    }
}

/// Two param-sets on one live trial under different names lose neither
/// write, in whichever order they land: the resulting record binds both
/// names to their written entries, and both orders leave the whole store
/// equal.
pub proof fn lemma_param_sets_commute(
    m: Map<(u128, usize), TrialRec>,
    key: (u128, usize),
    name_x: Seq<char>,
    px: ParamRec,
    name_y: Seq<char>,
    py: ParamRec,
)
    requires
        !is_finished(m, key),
        name_x != name_y,
    ensures
        ({
            let mxy = param_set_result(param_set_result(m, key, name_x, px), key, name_y, py);
            let myx = param_set_result(param_set_result(m, key, name_y, py), key, name_x, px);
            &&& mxy[key].params[name_x] == px
            &&& mxy[key].params[name_y] == py
            &&& mxy[key].params.contains_key(name_x)
            &&& mxy[key].params.contains_key(name_y)
            &&& mxy == myx
        }),
{
    let mx = param_set_result(m, key, name_x, px);
    let my = param_set_result(m, key, name_y, py);
    let mxy = param_set_result(mx, key, name_y, py);
    let myx = param_set_result(my, key, name_x, px);
    assert(!is_finished(mx, key));
    assert(!is_finished(my, key));
    assert(mxy[key].params =~= myx[key].params);
    assert(mxy[key] =~= myx[key]);
    assert(mxy =~= myx);
}

/// A param-set round-trips: immediately after the write, the record under
/// the key binds the written name to exactly the written value and
/// distribution, and every other binding of the trial is untouched.
pub proof fn lemma_param_roundtrip(
    m: Map<(u128, usize), TrialRec>,
    key: (u128, usize),
    name: Seq<char>,
    p: ParamRec,
)
    requires
        !is_finished(m, key),
    ensures
        ({
            let m2 = param_set_result(m, key, name, p);
            &&& m2.contains_key(key)
            &&& m2[key].params.contains_key(name)
            &&& m2[key].params[name] == p
            &&& forall|other: Seq<char>|
                other != name ==> (#[trigger] m2[key].params.contains_key(other))
                    == rec_or_empty(m, key).params.contains_key(other)
                    && (rec_or_empty(m, key).params.contains_key(other)
                    ==> m2[key].params[other] == rec_or_empty(m, key).params[other])
        }),
{
}

} // verus!
