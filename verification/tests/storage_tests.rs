use hyperstudy::frozen_trial::ParamValue;
use hyperstudy::storage::{InmemoryStorage, Storage, StorageError};

const STUDY: u128 = 7;

#[test]
fn set_param_then_get_trial_round_trips_int() {
    let mut st = InmemoryStorage::new();
    st.set_trial_param(STUDY, 0, "x", ParamValue::Int(5), "uniform").unwrap();
    let rec = st.get_trial(STUDY, 0).unwrap();
    assert_eq!(rec.study_id(), STUDY);
    assert_eq!(rec.trial_id(), 0);
    assert!(!rec.is_complete());
    let p = rec.param("x").unwrap();
    assert_eq!(p.value, ParamValue::Int(5));
    assert_eq!(p.dist_name, "uniform");
}

#[test]
fn set_param_then_get_trial_round_trips_text() {
    let mut st = InmemoryStorage::new();
    st.set_trial_param(STUDY, 0, "kind", ParamValue::Text(String::from("adam")), "categorical")
        .unwrap();
    let p = st.get_trial(STUDY, 0).unwrap().param("kind").unwrap();
    assert_eq!(p.value, ParamValue::Text(String::from("adam")));
    assert_eq!(p.dist_name, "categorical");
}

#[test]
fn set_param_overwrites_same_name() {
    let mut st = InmemoryStorage::new();
    st.set_trial_param(STUDY, 0, "x", ParamValue::Int(1), "uniform").unwrap();
    st.set_trial_param(STUDY, 0, "x", ParamValue::Int(2), "uniform").unwrap();
    let rec = st.get_trial(STUDY, 0).unwrap();
    assert_eq!(rec.param("x").unwrap().value, ParamValue::Int(2));
}

#[test]
fn two_param_writes_both_present() {
    let mut st = InmemoryStorage::new();
    st.set_trial_param(STUDY, 0, "x", ParamValue::Int(1), "uniform").unwrap();
    st.set_trial_param(STUDY, 0, "y", ParamValue::Int(2), "uniform").unwrap();
    let rec = st.get_trial(STUDY, 0).unwrap();
    assert_eq!(rec.param("x").unwrap().value, ParamValue::Int(1));
    assert_eq!(rec.param("y").unwrap().value, ParamValue::Int(2));
}

#[test]
fn complete_trial_rejects_further_writes() {
    let mut st = InmemoryStorage::new();
    st.set_trial_param(STUDY, 0, "x", ParamValue::Int(3), "uniform").unwrap();
    st.set_trial_value(STUDY, 0, 42).unwrap();
    assert_eq!(
        st.set_trial_param(STUDY, 0, "y", ParamValue::Int(4), "uniform"),
        Err(StorageError::AlreadyComplete)
    );
    assert_eq!(st.set_trial_value(STUDY, 0, 43), Err(StorageError::AlreadyComplete));
    let rec = st.get_trial(STUDY, 0).unwrap();
    assert!(rec.is_complete());
    assert_eq!(rec.final_value(), Some(42));
    assert_eq!(rec.param("x").unwrap().value, ParamValue::Int(3));
    assert!(rec.param("y").is_none());
}

#[test]
fn set_value_on_unstarted_trial_is_not_found() {
    let mut st = InmemoryStorage::new();
    assert_eq!(st.set_trial_value(STUDY, 9, 1), Err(StorageError::TrialNotFound));
    assert!(st.get_trial(STUDY, 9).is_none());
}

#[test]
fn set_value_freezes_params() {
    let mut st = InmemoryStorage::new();
    st.set_trial_param(STUDY, 1, "x", ParamValue::Int(8), "uniform").unwrap();
    st.set_trial_value(STUDY, 1, 99).unwrap();
    let rec = st.get_trial(STUDY, 1).unwrap();
    assert!(rec.is_complete());
    assert_eq!(rec.final_value(), Some(99));
    assert_eq!(rec.param("x").unwrap().value, ParamValue::Int(8));
}

#[test]
fn typed_read_of_mismatched_param_fails_to_decode() {
    let mut st = InmemoryStorage::new();
    st.set_trial_param(STUDY, 0, "x", ParamValue::Int(5), "uniform").unwrap();
    st.set_trial_param(STUDY, 0, "kind", ParamValue::Text(String::from("sgd")), "categorical")
        .unwrap();
    let rec = st.get_trial(STUDY, 0).unwrap();
    assert_eq!(rec.int_param("x"), Ok(Some(5)));
    assert_eq!(rec.int_param("missing"), Ok(None));
    assert_eq!(rec.int_param("kind"), Err(StorageError::DecodeError));
}

#[test]
fn get_trial_absent_is_none() {
    let st = InmemoryStorage::new();
    assert!(st.get_trial(STUDY, 0).is_none());
}

#[test]
fn get_trials_returns_each_trial_of_the_study_once() {
    let mut st = InmemoryStorage::new();
    st.set_trial_param(STUDY, 0, "x", ParamValue::Int(1), "uniform").unwrap();
    st.set_trial_param(STUDY, 1, "x", ParamValue::Int(2), "uniform").unwrap();
    st.set_trial_param(8, 0, "x", ParamValue::Int(3), "uniform").unwrap();
    let trials = st.get_trials(STUDY);
    assert_eq!(trials.len(), 2);
    let mut ids: Vec<usize> = trials.iter().map(|t| t.trial_id()).collect();
    ids.sort();
    assert_eq!(ids, vec![0, 1]);
    for t in &trials {
        assert_eq!(t.study_id(), STUDY);
    }
}

#[test]
fn distinct_trials_do_not_interfere() {
    let mut st = InmemoryStorage::new();
    st.set_trial_param(STUDY, 0, "x", ParamValue::Int(1), "uniform").unwrap();
    st.set_trial_param(STUDY, 1, "x", ParamValue::Int(2), "uniform").unwrap();
    st.set_trial_value(STUDY, 0, 10).unwrap();
    let rec0 = st.get_trial(STUDY, 0).unwrap();
    let rec1 = st.get_trial(STUDY, 1).unwrap();
    assert!(rec0.is_complete());
    assert!(!rec1.is_complete());
    assert_eq!(rec1.param("x").unwrap().value, ParamValue::Int(2));
}
