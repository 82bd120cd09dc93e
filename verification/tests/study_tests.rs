use hyperstudy::frozen_trial::ParamValue;
use hyperstudy::sampler::Sampler;
use hyperstudy::storage::{InmemoryStorage, Storage};
use hyperstudy::study::{StudyInstance, TrialOutcome};
use hyperstudy::trial::Trial;

#[test]
fn sample_uniform_stays_in_bounds_and_is_recorded() {
    let mut st = InmemoryStorage::new();
    let study: u128 = 3;
    for round in 0..200usize {
        let mut t = Trial::new(st, study, round);
        let v = t.sample_uniform("x", -7, 9);
        assert!(-7 <= v && v < 9);
        st = t.into_storage();
        let rec = st.get_trial(study, round).unwrap();
        assert_eq!(rec.param("x").unwrap().value, ParamValue::Int(v));
        assert_eq!(rec.param("x").unwrap().dist_name, "uniform");
    }
}

#[test]
fn best_trial_prefers_highest_complete_value() {
    let mut st = InmemoryStorage::new();
    let study: u128 = 1;
    st.set_trial_param(study, 3, "x", ParamValue::Int(0), "uniform").unwrap();
    st.set_trial_value(study, 3, 10).unwrap();
    st.set_trial_param(study, 7, "x", ParamValue::Int(1), "uniform").unwrap();
    st.set_trial_value(study, 7, 25).unwrap();
    st.set_trial_param(study, 2, "x", ParamValue::Int(2), "uniform").unwrap();
    let s = StudyInstance::with_id(st, study);
    let best = s.get_best_trial().unwrap();
    assert_eq!(best.trial_id(), 7);
    assert!(best.is_complete());
    assert_eq!(best.final_value(), Some(25));
}

#[test]
fn best_trial_of_only_in_progress_trials_is_none() {
    let mut st = InmemoryStorage::new();
    let study: u128 = 2;
    st.set_trial_param(study, 0, "x", ParamValue::Int(0), "uniform").unwrap();
    st.set_trial_param(study, 1, "x", ParamValue::Int(1), "uniform").unwrap();
    let s = StudyInstance::with_id(st, study);
    assert!(s.get_best_trial().is_none());
}

#[test]
fn best_trial_of_empty_study_is_none() {
    let s = StudyInstance::with_id(InmemoryStorage::new(), 4);
    assert!(s.get_best_trial().is_none());
}

#[test]
fn optimize_records_every_trial() {
    let mut s = StudyInstance::new(InmemoryStorage::new());
    let study = s.id();
    let n: usize = 12;
    let outcomes = s.optimize(
        |t: Trial<InmemoryStorage>| {
            let mut t = t;
            let x = t.sample_uniform("x", 0, 100);
            (t, Ok::<i64, String>(x))
        },
        n,
    );
    assert_eq!(outcomes.len(), n);
    for (i, out) in outcomes.iter().enumerate() {
        match out {
            TrialOutcome::Completed(v) => {
                let rec = s.storage().get_trial(study, i).unwrap();
                assert!(rec.is_complete());
                assert_eq!(rec.final_value(), Some(*v));
            }
            _ => panic!("every objective here succeeds after sampling"),
        }
    }
}

#[test]
fn optimize_reports_objective_failures_without_aborting() {
    let mut s = StudyInstance::new(InmemoryStorage::new());
    let study = s.id();
    let outcomes = s.optimize(
        |t: Trial<InmemoryStorage>| {
            let mut t = t;
            let trial_id = t.trial_id();
            let x = t.sample_uniform("x", 0, 10);
            if trial_id % 2 == 0 {
                (t, Ok(x))
            } else {
                (t, Err(String::from("objective failed")))
            }
        },
        6,
    );
    assert_eq!(outcomes.len(), 6);
    for (i, out) in outcomes.iter().enumerate() {
        let rec = s.storage().get_trial(study, i).unwrap();
        if i % 2 == 0 {
            assert!(matches!(out, TrialOutcome::Completed(_)));
            assert!(rec.is_complete());
        } else {
            assert_eq!(*out, TrialOutcome::ObjectiveFailed(String::from("objective failed")));
            assert!(!rec.is_complete());
        }
    }
    let best = s.get_best_trial().unwrap();
    assert_eq!(best.trial_id() % 2, 0);
}

#[test]
fn optimize_reports_trials_that_never_sampled() {
    let mut s = StudyInstance::new(InmemoryStorage::new());
    let study = s.id();
    let outcomes = s.optimize(|t: Trial<InmemoryStorage>| (t, Ok::<i64, String>(1)), 3);
    assert_eq!(outcomes.len(), 3);
    for (i, out) in outcomes.iter().enumerate() {
        assert_eq!(*out, TrialOutcome::NotStarted);
        assert!(s.storage().get_trial(study, i).is_none());
    }
    assert!(s.get_best_trial().is_none());
}

#[test]
fn optimize_then_best_trial_end_to_end() {
    let mut s = StudyInstance::new(InmemoryStorage::new());
    let study = s.id();
    let n: usize = 50;
    let outcomes = s.optimize(
        |t: Trial<InmemoryStorage>| {
            let mut t = t;
            let x = t.sample_uniform("x", 0, 10);
            let y = t.sample_uniform("y", -5, 5);
            (t, Ok::<i64, String>(x * x + y))
        },
        n,
    );
    assert_eq!(outcomes.len(), n);
    let mut max: Option<i64> = None;
    for out in &outcomes {
        match out {
            TrialOutcome::Completed(v) => {
                if max.is_none() || *v > max.unwrap() {
                    max = Some(*v);
                }
            }
            _ => panic!("every objective here succeeds"),
        }
    }
    let best = s.get_best_trial().unwrap();
    assert!(best.is_complete());
    assert_eq!(best.final_value(), max);
    assert_eq!(best.study_id(), study);
    let x = best.param("x").unwrap();
    let y = best.param("y").unwrap();
    assert_eq!(x.dist_name, "uniform");
    assert_eq!(y.dist_name, "uniform");
    match (x.value, y.value) {
        (ParamValue::Int(xv), ParamValue::Int(yv)) => {
            assert!(0 <= xv && xv < 10);
            assert!(-5 <= yv && yv < 5);
            assert_eq!(best.final_value(), Some(xv * xv + yv));
        }
        _ => panic!("both params are integers"),
    }
}

#[test]
fn optimize_of_zero_trials_does_nothing() {
    let mut s = StudyInstance::new(InmemoryStorage::new());
    let outcomes = s.optimize(
        |t: Trial<InmemoryStorage>| (t, Ok::<i64, String>(0)),
        0,
    );
    assert!(outcomes.is_empty());
    assert!(s.get_best_trial().is_none());
}

#[test]
fn concurrent_param_writes_both_survive() {
    let shared = std::sync::Mutex::new(InmemoryStorage::new());
    let study: u128 = 21;
    rayon::join(
        || {
            shared
                .lock()
                .unwrap()
                .set_trial_param(study, 0, "x", ParamValue::Int(1), "uniform")
                .unwrap();
        },
        || {
            shared
                .lock()
                .unwrap()
                .set_trial_param(study, 0, "y", ParamValue::Int(2), "uniform")
                .unwrap();
        },
    );
    let st = shared.into_inner().unwrap();
    let rec = st.get_trial(study, 0).unwrap();
    assert_eq!(rec.param("x").unwrap().value, ParamValue::Int(1));
    assert_eq!(rec.param("y").unwrap().value, ParamValue::Int(2));
}

#[test]
fn studies_do_not_share_trials() {
    let mut st = InmemoryStorage::new();
    st.set_trial_param(11, 0, "x", ParamValue::Int(1), "uniform").unwrap();
    st.set_trial_value(11, 0, 5).unwrap();
    let s = StudyInstance::with_id(st, 12);
    assert!(s.get_best_trial().is_none());
}
