//! The per-property verdicts of a verification run, as a run's report carries them.

use vstd::prelude::*;

verus! {

broadcast use vstd::string::group_string_axioms;

/// The kind of SystemVerilog assertion a property came from.
#[derive(Debug, Clone, Copy, PartialEq, Eq, Structural)]
pub enum SvaKind {
    Assert,
    Assume,
    Cover,
}

/// The verdict of one property.
#[derive(Debug, Clone, PartialEq, Eq)]
pub enum VerifyOutcome {
    /// The property holds.
    Holds,
    /// The property is violated in `false_cells` cells.
    Violated { false_cells: usize },
    /// The engine abstained (⊥), leaving `unknown_cells` cells undecided.
    Unknown { unknown_cells: usize },
    /// The property was not evaluated.
    Skipped { reason: String },
}

pub open spec fn outcome_label(o: VerifyOutcome) -> Seq<char> {
    match o {
        VerifyOutcome::Holds => "holds"@,
        VerifyOutcome::Violated { .. } => "violated"@,
        VerifyOutcome::Unknown { .. } => "unknown"@,
        VerifyOutcome::Skipped { .. } => "skipped"@,
    }
}

impl VerifyOutcome {
    /// The verdict's label, without its payload.
    pub fn label(&self) -> (s: &'static str)
        ensures
            s@ == outcome_label(*self),
    {
        match self {
            VerifyOutcome::Holds => "holds",
            VerifyOutcome::Violated { .. } => "violated",
            VerifyOutcome::Unknown { .. } => "unknown",
            VerifyOutcome::Skipped { .. } => "skipped",
        }
    }
}

/// One property's verdict in a run.
#[derive(Debug, Clone, PartialEq, Eq)]
pub struct PropertyVerdict {
    pub name: String,
    pub kind: SvaKind,
    pub formula: String,
    pub outcome: VerifyOutcome,
}

/// What a verification run produced: the verdict of every translated property, and the
/// assertions that did not translate, each with the reason.
#[derive(Debug, Clone, PartialEq, Eq)]
pub struct AutoVerifyReport {
    pub properties: Vec<PropertyVerdict>,
    pub unsupported: Vec<(String, String)>,
}

impl Default for AutoVerifyReport {
    fn default() -> (r: Self)
        ensures
            r.properties@.len() == 0,
            r.unsupported@.len() == 0,
    {
        AutoVerifyReport { properties: Vec::new(), unsupported: Vec::new() }
    }
}

} // verus!
