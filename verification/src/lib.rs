//! A small hyperparameter-optimization study engine.
//!
//! A study runs an objective function many times ("trials"), each time
//! sampling parameter values from declared distributions, records every
//! sampled parameter and every final value in a shared store, and selects
//! the best completed trial.

use vstd::prelude::*;

pub mod frozen_trial;
pub mod laws;
pub mod sampler;
pub mod storage;
pub mod study;
pub mod trial;

verus! {

} // verus!
