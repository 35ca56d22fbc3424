//! Budgets, ceilings, verdict expectations and the bit-level interaction graph of a
//! model-checking run, with their rules stated and proved.

pub mod text;
pub mod memory_budget;
pub mod run_budget;
pub mod report;
pub mod expectations;
pub mod btor2;
pub mod bit_interaction;
pub mod partial_json;
pub mod engine_isolate;
pub mod operator_laws;

use vstd::prelude::*;

verus! {

} // verus!
