//! Verdict expectations: assert that a run produced exactly the verdicts a caller claimed.
//!
//! Three verbs: all-hold (every property holds and nothing is untranslated, unknown or
//! skipped, optionally with an exact count), violated (the named are violated and every other
//! property still holds), and named (each named property returns exactly its verdict, and an
//! unnamed violation is still a failure). There is deliberately no verb that tolerates an
//! undecided property: `Unknown` pins a ⊥ as a claim, which fails once it stops being true.

use vstd::prelude::*;
use crate::report::{AutoVerifyReport, PropertyVerdict, VerifyOutcome};
use crate::text::{
    ascii_lower, is_white_space, trim_end, trim_start, ascii_lowercase, ascii_lowercase_chars, chars_eq, chars_eq_str, decimal, decimal_chars,
    extend_chars, extend_str, str_chars, string_from_chars, trim, trim_chars,
};

verus! {

broadcast use vstd::string::group_string_axioms;

/// A verdict a caller can claim for a named property.
#[derive(Debug, Clone, Copy, PartialEq, Eq, Structural)]
pub enum ExpectedVerdict {
    Holds,
    Violated,
    Unknown,
    Skipped,
}

pub open spec fn verdict_label(v: ExpectedVerdict) -> Seq<char> {
    match v {
        ExpectedVerdict::Holds => "holds"@,
        ExpectedVerdict::Violated => "violated"@,
        ExpectedVerdict::Unknown => "unknown"@,
        ExpectedVerdict::Skipped => "skipped"@,
    }
}

/// The verdict a caller claims from its spelling: white space around it is ignored and ASCII
/// case does not matter; `bottom` and `⊥` are spellings of `Unknown`.
pub open spec fn parse_verdict_spec(s: Seq<char>) -> Option<ExpectedVerdict> {
    let t = ascii_lowercase(trim(s));
    if t == "holds"@ {
        Some(ExpectedVerdict::Holds)
    } else if t == "violated"@ {
        Some(ExpectedVerdict::Violated)
    } else if t == "unknown"@ || t == "bottom"@ || t == "⊥"@ {
        Some(ExpectedVerdict::Unknown)
    } else if t == "skipped"@ {
        Some(ExpectedVerdict::Skipped)
    } else {
        None
    }
}

/// The claimable verdict an outcome shows, without its payload.
pub open spec fn outcome_verdict(o: VerifyOutcome) -> ExpectedVerdict {
    match o {
        VerifyOutcome::Holds => ExpectedVerdict::Holds,
        VerifyOutcome::Violated { .. } => ExpectedVerdict::Violated,
        VerifyOutcome::Unknown { .. } => ExpectedVerdict::Unknown,
        VerifyOutcome::Skipped { .. } => ExpectedVerdict::Skipped,
    }
}

impl ExpectedVerdict {
    /// Parse the CLI/API spelling of a verdict.
    pub fn parse(s: &str) -> (r: Option<Self>)
        ensures
            r == parse_verdict_spec(s@),
    {
        let chars = str_chars(s);
        let trimmed = trim_chars(&chars);
        let t = ascii_lowercase_chars(&trimmed);
        if chars_eq_str(&t, "holds") {
            Some(ExpectedVerdict::Holds)
        } else if chars_eq_str(&t, "violated") {
            Some(ExpectedVerdict::Violated)
        } else if chars_eq_str(&t, "unknown") || chars_eq_str(&t, "bottom") || chars_eq_str(
            &t,
            "⊥",
        ) {
            Some(ExpectedVerdict::Unknown)
        } else if chars_eq_str(&t, "skipped") {
            Some(ExpectedVerdict::Skipped)
        } else {
            None
        }
    }

    /// The label this expectation matches, the same as the outcome's label.
    pub fn label(self) -> (s: &'static str)
        ensures
            s@ == verdict_label(self),
    {
        match self {
            ExpectedVerdict::Holds => "holds",
            ExpectedVerdict::Violated => "violated",
            ExpectedVerdict::Unknown => "unknown",
            ExpectedVerdict::Skipped => "skipped",
        }
    }
}

/// What a caller claims about a run. An empty claim asserts nothing.
#[derive(Debug, Clone, PartialEq, Eq)]
pub struct Expectations {
    /// Every property must hold, and nothing may be unsupported, unknown or skipped.
    pub all_hold: bool,
    /// The property count must be exactly this.
    pub count: Option<usize>,
    /// These must be violated, and every other property must hold.
    pub violated: Vec<String>,
    /// These must each return exactly the named verdict; an unnamed violation still fails.
    pub named: Vec<(String, ExpectedVerdict)>,
}

impl Default for Expectations {
    fn default() -> (e: Self)
        ensures
            !e.all_hold,
            e.count is None,
            e.violated@.len() == 0,
            e.named@.len() == 0,
    {
        Expectations { all_hold: false, count: None, violated: Vec::new(), named: Vec::new() }
    }
}

pub open spec fn claims_nothing(e: Expectations) -> bool {
    !e.all_hold && e.count is None && e.violated@.len() == 0 && e.named@.len() == 0
}

impl Expectations {
    /// True when the caller claimed nothing.
    pub fn is_empty(&self) -> (b: bool)
        ensures
            b == claims_nothing(*self),
    {
        !self.all_hold && self.count.is_none() && self.violated.len() == 0 && self.named.len() == 0
    }
}

/// One unmet claim; `property` is `None` for a run-level claim.
#[derive(Debug, Clone, PartialEq, Eq)]
pub struct ExpectationFailure {
    pub property: Option<String>,
    pub reason: String,
}

/// The outcome of checking a report against a caller's claims.
#[derive(Debug, Clone, PartialEq, Eq)]
pub struct ExpectationResult {
    pub satisfied: bool,
    pub failures: Vec<ExpectationFailure>,
}

/// A failure as a pair of the property's name (if any) and the reason.
pub type FailureView = (Option<Seq<char>>, Seq<char>);

pub open spec fn failure_view(f: ExpectationFailure) -> FailureView {
    (
        match f.property {
            Some(p) => Some(p@),
            None => None,
        },
        f.reason@,
    )
}

pub open spec fn failures_view(fs: Seq<ExpectationFailure>) -> Seq<FailureView> {
    fs.map_values(|f: ExpectationFailure| failure_view(f))
}

// ---- the messages ----------------------------------------------------------------------

/// A verdict rendered for a failure message, carrying the figure that explains it.
pub open spec fn describe_spec(o: VerifyOutcome) -> Seq<char> {
    match o {
        VerifyOutcome::Holds => "holds"@,
        VerifyOutcome::Violated { false_cells } => "violated ("@ + decimal(false_cells as nat)
            + " cell(s))"@,
        VerifyOutcome::Unknown { unknown_cells } => "unknown/⊥ ("@ + decimal(unknown_cells as nat)
            + " cell(s))"@,
        VerifyOutcome::Skipped { reason } => "skipped ("@ + reason@ + ")"@,
    }
}

pub open spec fn count_reason(want: usize, got: nat) -> Seq<char> {
    "expected "@ + decimal(want as nat) + " propert"@ + (if want == 1 {
        "y"@
    } else {
        "ies"@
    }) + ", got "@ + decimal(got)
        + " — a binding that stopped binding produces FEWER properties, and a smaller all-green set reads as a clean pass"@
}

pub open spec fn untranslated_reason(reason: Seq<char>) -> Seq<char> {
    "did not translate, so it is not being checked: "@ + reason
}

pub open spec fn empty_run_reason() -> Seq<char> {
    "no properties were verified at all — an empty run is not an all-hold run"@
}

pub open spec fn wrong_verdict_reason(want: Seq<char>, got: VerifyOutcome) -> Seq<char> {
    "expected "@ + want + ", got "@ + describe_spec(got)
}

pub open spec fn must_still_hold_reason(got: VerifyOutcome) -> Seq<char> {
    "not named as violated, so it must still hold, but got "@ + describe_spec(got)
        + " — a twin that breaks every property does not show which property covers the fault"@
}

pub open spec fn unnamed_violation_reason() -> Seq<char> {
    "VIOLATED but not named — an unnamed violation is still a failure"@
}

// ---- lookups -----------------------------------------------------------------------------

/// The first property of that name.
pub open spec fn find_property(ps: Seq<PropertyVerdict>, name: Seq<char>) -> Option<
    PropertyVerdict,
>
    decreases ps.len(),
{
    if ps.len() == 0 {
        None
    } else if ps[0].name@ == name {
        Some(ps[0])
    } else {
        find_property(ps.drop_first(), name)
    }
}

/// The reason the first untranslated assertion of that name gave.
pub open spec fn find_unsupported(us: Seq<(String, String)>, name: Seq<char>) -> Option<Seq<char>>
    decreases us.len(),
{
    if us.len() == 0 {
        None
    } else if us[0].0@ == name {
        Some(us[0].1@)
    } else {
        find_unsupported(us.drop_first(), name)
    }
}

/// Why a claimed property is not in the report, naming the untranslatable reason when there
/// is one.
pub open spec fn absent_reason_spec(r: AutoVerifyReport, name: Seq<char>, want: Seq<char>) -> Seq<
    char,
> {
    match find_unsupported(r.unsupported@, name) {
        Some(reason) => "expected "@ + want + ", but it did not translate: "@ + reason,
        None => "expected "@ + want
            + ", but no property of that name is in the report — check the name, or whether the assertion still binds"@,
    }
}

pub open spec fn names_contain(names: Seq<String>, name: Seq<char>) -> bool {
    exists|i: int| 0 <= i < names.len() && #[trigger] names[i]@ == name
}

pub open spec fn claims_violated(named: Seq<(String, ExpectedVerdict)>, name: Seq<char>) -> bool {
    exists|i: int|
        0 <= i < named.len() && #[trigger] named[i].0@ == name && named[i].1
            == ExpectedVerdict::Violated
}

// ---- the failures each claim produces, in order ------------------------------------------

pub open spec fn count_failures(r: AutoVerifyReport, e: Expectations) -> Seq<FailureView> {
    match e.count {
        Some(want) => if r.properties@.len() != want {
            seq![(None, count_reason(want, r.properties@.len()))]
        } else {
            seq![]
        },
        None => seq![],
    }
}

pub open spec fn untranslated_failures(us: Seq<(String, String)>) -> Seq<FailureView>
    decreases us.len(),
{
    if us.len() == 0 {
        seq![]
    } else {
        untranslated_failures(us.drop_last()).push(
            (Some(us.last().0@), untranslated_reason(us.last().1@)),
        )
    }
}

pub open spec fn not_holding_failures(ps: Seq<PropertyVerdict>) -> Seq<FailureView>
    decreases ps.len(),
{
    if ps.len() == 0 {
        seq![]
    } else {
        let rest = not_holding_failures(ps.drop_last());
        let p = ps.last();
        if p.outcome is Holds {
            rest
        } else {
            rest.push((Some(p.name@), wrong_verdict_reason("holds"@, p.outcome)))
        }
    }
}

pub open spec fn all_hold_failures(r: AutoVerifyReport, e: Expectations) -> Seq<FailureView> {
    if e.all_hold {
        untranslated_failures(r.unsupported@) + (if r.properties@.len() == 0
            && r.unsupported@.len() == 0 {
            seq![(None, empty_run_reason())]
        } else {
            seq![]
        }) + not_holding_failures(r.properties@)
    } else {
        seq![]
    }
}

pub open spec fn violated_claim_failure(r: AutoVerifyReport, name: Seq<char>) -> Seq<FailureView> {
    match find_property(r.properties@, name) {
        None => seq![(Some(name), absent_reason_spec(r, name, "violated"@))],
        Some(p) => if p.outcome is Violated {
            seq![]
        } else {
            seq![(Some(p.name@), wrong_verdict_reason("violated"@, p.outcome))]
        },
    }
}

pub open spec fn violated_claims_failures(r: AutoVerifyReport, names: Seq<String>) -> Seq<
    FailureView,
>
    decreases names.len(),
{
    if names.len() == 0 {
        seq![]
    } else {
        violated_claims_failures(r, names.drop_last()) + violated_claim_failure(
            r,
            names.last()@,
        )
    }
}

pub open spec fn others_must_hold_failures(ps: Seq<PropertyVerdict>, names: Seq<String>) -> Seq<
    FailureView,
>
    decreases ps.len(),
{
    if ps.len() == 0 {
        seq![]
    } else {
        let rest = others_must_hold_failures(ps.drop_last(), names);
        let p = ps.last();
        if names_contain(names, p.name@) || p.outcome is Holds {
            rest
        } else {
            rest.push((Some(p.name@), must_still_hold_reason(p.outcome)))
        }
    }
}

pub open spec fn violated_failures(r: AutoVerifyReport, e: Expectations) -> Seq<FailureView> {
    violated_claims_failures(r, e.violated@) + (if e.violated@.len() == 0 {
        seq![]
    } else {
        others_must_hold_failures(r.properties@, e.violated@)
    })
}

pub open spec fn named_claim_failure(
    r: AutoVerifyReport,
    name: Seq<char>,
    want: ExpectedVerdict,
) -> Seq<FailureView> {
    match find_property(r.properties@, name) {
        None => seq![(Some(name), absent_reason_spec(r, name, verdict_label(want)))],
        Some(p) => if outcome_verdict(p.outcome) != want {
            seq![(Some(p.name@), wrong_verdict_reason(verdict_label(want), p.outcome))]
        } else {
            seq![]
        },
    }
}

pub open spec fn named_claims_failures(
    r: AutoVerifyReport,
    named: Seq<(String, ExpectedVerdict)>,
) -> Seq<FailureView>
    decreases named.len(),
{
    if named.len() == 0 {
        seq![]
    } else {
        named_claims_failures(r, named.drop_last()) + named_claim_failure(
            r,
            named.last().0@,
            named.last().1,
        )
    }
}

pub open spec fn unnamed_violation_failures(
    ps: Seq<PropertyVerdict>,
    named: Seq<(String, ExpectedVerdict)>,
) -> Seq<FailureView>
    decreases ps.len(),
{
    if ps.len() == 0 {
        seq![]
    } else {
        let rest = unnamed_violation_failures(ps.drop_last(), named);
        let p = ps.last();
        if p.outcome is Violated && !claims_violated(named, p.name@) {
            rest.push((Some(p.name@), unnamed_violation_reason()))
        } else {
            rest
        }
    }
}

pub open spec fn named_failures(r: AutoVerifyReport, e: Expectations) -> Seq<FailureView> {
    named_claims_failures(r, e.named@) + (if e.named@.len() == 0 {
        seq![]
    } else {
        unnamed_violation_failures(r.properties@, e.named@)
    })
}

/// Every unmet claim, in the order the claims are checked: the count, all-hold, violated,
/// named.
pub open spec fn expected_failures(r: AutoVerifyReport, e: Expectations) -> Seq<FailureView> {
    count_failures(r, e) + all_hold_failures(r, e) + violated_failures(r, e) + named_failures(r, e)
}


// ---- the exec side -------------------------------------------------------------------------

fn describe(o: &VerifyOutcome) -> (v: Vec<char>)
    ensures
        v@ == describe_spec(*o),
{
    let mut v: Vec<char> = Vec::new();
    match o {
        VerifyOutcome::Holds => {
            extend_str(&mut v, "holds");
        },
        VerifyOutcome::Violated { false_cells } => {
            extend_str(&mut v, "violated (");
            extend_chars(&mut v, &decimal_chars(*false_cells as u64));
            extend_str(&mut v, " cell(s))");
        },
        VerifyOutcome::Unknown { unknown_cells } => {
            extend_str(&mut v, "unknown/⊥ (");
            extend_chars(&mut v, &decimal_chars(*unknown_cells as u64));
            extend_str(&mut v, " cell(s))");
        },
        VerifyOutcome::Skipped { reason } => {
            extend_str(&mut v, "skipped (");
            extend_str(&mut v, reason.as_str());
            extend_str(&mut v, ")");
        },
    }
    v
}

fn push_failure(fs: &mut Vec<ExpectationFailure>, property: Option<String>, reason: &Vec<char>)
    ensures
        failures_view(final(fs)@) == failures_view(old(fs)@).push(
            (
                match property {
                    Some(p) => Some(p@),
                    None => None,
                },
                reason@,
            ),
        ),
{
    let ghost old_fs = fs@;
    let f = ExpectationFailure { property, reason: string_from_chars(reason) };
    fs.push(f);
    assert(failures_view(fs@) =~= failures_view(old_fs).push(failure_view(f)));
}

proof fn lemma_find_property_at(ps: Seq<PropertyVerdict>, name: Seq<char>, i: int)
    requires
        0 <= i < ps.len(),
        forall|j: int| 0 <= j < i ==> (#[trigger] ps[j]).name@ != name,
        ps[i].name@ == name,
    ensures
        find_property(ps, name) == Some(ps[i]),
    decreases i,
{
    if i > 0 {
        assert(ps[0].name@ != name);
        let t = ps.drop_first();
        assert forall|j: int| 0 <= j < i - 1 implies (#[trigger] t[j]).name@ != name by {
            assert(t[j] == ps[j + 1]);
        }
        lemma_find_property_at(t, name, i - 1);
    }
}

proof fn lemma_find_property_absent(ps: Seq<PropertyVerdict>, name: Seq<char>)
    requires
        forall|j: int| 0 <= j < ps.len() ==> (#[trigger] ps[j]).name@ != name,
    ensures
        find_property(ps, name) is None,
    decreases ps.len(),
{
    if ps.len() > 0 {
        assert(ps[0].name@ != name);
        let t = ps.drop_first();
        assert forall|j: int| 0 <= j < t.len() implies (#[trigger] t[j]).name@ != name by {
            assert(t[j] == ps[j + 1]);
        }
        lemma_find_property_absent(t, name);
    }
}

proof fn lemma_find_unsupported_at(us: Seq<(String, String)>, name: Seq<char>, i: int)
    requires
        0 <= i < us.len(),
        forall|j: int| 0 <= j < i ==> (#[trigger] us[j]).0@ != name,
        us[i].0@ == name,
    ensures
        find_unsupported(us, name) == Some(us[i].1@),
    decreases i,
{
    if i > 0 {
        assert(us[0].0@ != name);
        let t = us.drop_first();
        assert forall|j: int| 0 <= j < i - 1 implies (#[trigger] t[j]).0@ != name by {
            assert(t[j] == us[j + 1]);
        }
        lemma_find_unsupported_at(t, name, i - 1);
    }
}

proof fn lemma_find_unsupported_absent(us: Seq<(String, String)>, name: Seq<char>)
    requires
        forall|j: int| 0 <= j < us.len() ==> (#[trigger] us[j]).0@ != name,
    ensures
        find_unsupported(us, name) is None,
    decreases us.len(),
{
    if us.len() > 0 {
        assert(us[0].0@ != name);
        let t = us.drop_first();
        assert forall|j: int| 0 <= j < t.len() implies (#[trigger] t[j]).0@ != name by {
            assert(t[j] == us[j + 1]);
        }
        lemma_find_unsupported_absent(t, name);
    }
}

/// The position of the first property of that name.
fn find_property_index(ps: &Vec<PropertyVerdict>, name: &Vec<char>) -> (r: Option<usize>)
    ensures
        match r {
            Some(i) => i < ps@.len() && find_property(ps@, name@) == Some(ps@[i as int]),
            None => find_property(ps@, name@) is None,
        },
{
    let mut i: usize = 0;
    while i < ps.len()
        invariant
            i <= ps@.len(),
            forall|j: int| 0 <= j < i ==> (#[trigger] ps@[j]).name@ != name@,
        decreases ps@.len() - i,
    {
        let pn = str_chars(ps[i].name.as_str());
        if chars_eq(&pn, name) {
            proof {
                lemma_find_property_at(ps@, name@, i as int);
            }
            return Some(i);
        }
        i = i + 1;
    }
    proof {
        lemma_find_property_absent(ps@, name@);
    }
    None
}

/// Why a claimed property is not in the report.
fn absent_reason(report: &AutoVerifyReport, name: &Vec<char>, want: &str) -> (v: Vec<char>)
    ensures
        v@ == absent_reason_spec(*report, name@, want@),
{
    let us = &report.unsupported;
    let mut i: usize = 0;
    while i < us.len()
        invariant
            i <= us@.len(),
            us == &report.unsupported,
            forall|j: int| 0 <= j < i ==> (#[trigger] us@[j]).0@ != name@,
        decreases us@.len() - i,
    {
        let un = str_chars(us[i].0.as_str());
        if chars_eq(&un, name) {
            proof {
                lemma_find_unsupported_at(us@, name@, i as int);
            }
            let mut v: Vec<char> = Vec::new();
            extend_str(&mut v, "expected ");
            extend_str(&mut v, want);
            extend_str(&mut v, ", but it did not translate: ");
            extend_str(&mut v, us[i].1.as_str());
            return v;
        }
        i = i + 1;
    }
    proof {
        lemma_find_unsupported_absent(us@, name@);
    }
    let mut v: Vec<char> = Vec::new();
    extend_str(&mut v, "expected ");
    extend_str(&mut v, want);
    extend_str(
        &mut v,
        ", but no property of that name is in the report — check the name, or whether the assertion still binds",
    );
    v
}

fn names_contain_exec(names: &Vec<String>, name: &Vec<char>) -> (b: bool)
    ensures
        b == names_contain(names@, name@),
{
    let mut i: usize = 0;
    while i < names.len()
        invariant
            i <= names@.len(),
            forall|j: int| 0 <= j < i ==> (#[trigger] names@[j])@ != name@,
        decreases names@.len() - i,
    {
        let n = str_chars(names[i].as_str());
        if chars_eq(&n, name) {
            assert(names@[i as int]@ == name@);
            return true;
        }
        i = i + 1;
    }
    false
}

fn claims_violated_exec(named: &Vec<(String, ExpectedVerdict)>, name: &Vec<char>) -> (b: bool)
    ensures
        b == claims_violated(named@, name@),
{
    let mut i: usize = 0;
    while i < named.len()
        invariant
            i <= named@.len(),
            forall|j: int|
                0 <= j < i ==> !((#[trigger] named@[j]).0@ == name@ && named@[j].1
                    == ExpectedVerdict::Violated),
        decreases named@.len() - i,
    {
        let n = str_chars(named[i].0.as_str());
        if chars_eq(&n, name) && named[i].1 == ExpectedVerdict::Violated {
            assert(named@[i as int].0@ == name@);
            return true;
        }
        i = i + 1;
    }
    false
}

fn wrong_verdict_message(want: &str, got: &VerifyOutcome) -> (v: Vec<char>)
    ensures
        v@ == wrong_verdict_reason(want@, *got),
{
    let mut v: Vec<char> = Vec::new();
    extend_str(&mut v, "expected ");
    extend_str(&mut v, want);
    extend_str(&mut v, ", got ");
    extend_chars(&mut v, &describe(got));
    v
}

fn count_message(want: usize, got: usize) -> (v: Vec<char>)
    ensures
        v@ == count_reason(want, got as nat),
{
    let mut v: Vec<char> = Vec::new();
    extend_str(&mut v, "expected ");
    extend_chars(&mut v, &decimal_chars(want as u64));
    extend_str(&mut v, " propert");
    if want == 1 {
        extend_str(&mut v, "y");
    } else {
        extend_str(&mut v, "ies");
    }
    extend_str(&mut v, ", got ");
    extend_chars(&mut v, &decimal_chars(got as u64));
    extend_str(
        &mut v,
        " — a binding that stopped binding produces FEWER properties, and a smaller all-green set reads as a clean pass",
    );
    v
}

fn push_count_failures(
    failures: &mut Vec<ExpectationFailure>,
    report: &AutoVerifyReport,
    exp: &Expectations,
)
    ensures
        failures_view(final(failures)@) == failures_view(old(failures)@) + count_failures(
            *report,
            *exp,
        ),
{
    let ghost before = failures_view(failures@);
    if let Some(want) = exp.count {
        if report.properties.len() != want {
            push_failure(failures, None, &count_message(want, report.properties.len()));
        }
    }
    assert(failures_view(failures@) =~= before + count_failures(*report, *exp));
}

fn push_all_hold_failures(
    failures: &mut Vec<ExpectationFailure>,
    report: &AutoVerifyReport,
    exp: &Expectations,
)
    ensures
        failures_view(final(failures)@) == failures_view(old(failures)@) + all_hold_failures(
            *report,
            *exp,
        ),
{
    let ghost before = failures_view(failures@);
    if !exp.all_hold {
        assert(failures_view(failures@) =~= before + all_hold_failures(*report, *exp));
        return;
    }
    let ps = &report.properties;
    let n = ps.len();
    let us = &report.unsupported;
    let mut i: usize = 0;
    while i < us.len()
        invariant
            i <= us@.len(),
            us == &report.unsupported,
            failures_view(failures@) == before + untranslated_failures(us@.take(i as int)),
        decreases us@.len() - i,
    {
        let mut reason: Vec<char> = Vec::new();
        extend_str(&mut reason, "did not translate, so it is not being checked: ");
        extend_str(&mut reason, us[i].1.as_str());
        push_failure(failures, Some(us[i].0.clone()), &reason);
        proof {
            assert(us@.take(i + 1).drop_last() =~= us@.take(i as int));
        }
        i = i + 1;
        assert(failures_view(failures@) =~= before + untranslated_failures(us@.take(i as int)));
    }
    assert(us@.take(us@.len() as int) =~= us@);
    let ghost after_untranslated = failures_view(failures@);
    if n == 0 && us.len() == 0 {
        let mut reason: Vec<char> = Vec::new();
        extend_str(
            &mut reason,
            "no properties were verified at all — an empty run is not an all-hold run",
        );
        push_failure(failures, None, &reason);
    }
    let ghost after_empty = failures_view(failures@);
    assert(after_empty =~= after_untranslated + (if n == 0 && us@.len() == 0 {
        seq![(None::<Seq<char>>, empty_run_reason())]
    } else {
        seq![]
    }));
    let mut i: usize = 0;
    while i < n
        invariant
            i <= n == ps@.len(),
            ps == &report.properties,
            failures_view(failures@) == after_empty + not_holding_failures(ps@.take(i as int)),
        decreases n - i,
    {
        let p = &ps[i];
        if !matches!(p.outcome, VerifyOutcome::Holds) {
            push_failure(failures, Some(p.name.clone()), &wrong_verdict_message("holds", &p.outcome));
        }
        proof {
            assert(ps@.take(i + 1).drop_last() =~= ps@.take(i as int));
        }
        i = i + 1;
        assert(failures_view(failures@) =~= after_empty + not_holding_failures(
            ps@.take(i as int),
        ));
    }
    assert(ps@.take(n as int) =~= ps@);
    assert(failures_view(failures@) =~= before + all_hold_failures(*report, *exp));
}

fn push_violated_failures(
    failures: &mut Vec<ExpectationFailure>,
    report: &AutoVerifyReport,
    exp: &Expectations,
)
    ensures
        failures_view(final(failures)@) == failures_view(old(failures)@) + violated_failures(
            *report,
            *exp,
        ),
{
    let ghost before = failures_view(failures@);
    let ps = &report.properties;
    let n = ps.len();
    let names = &exp.violated;
    let mut k: usize = 0;
    while k < names.len()
        invariant
            k <= names@.len(),
            names == &exp.violated,
            ps == &report.properties,
            failures_view(failures@) == before + violated_claims_failures(
                *report,
                names@.take(k as int),
            ),
        decreases names@.len() - k,
    {
        let name = str_chars(names[k].as_str());
        match find_property_index(ps, &name) {
            None => {
                let reason = absent_reason(report, &name, "violated");
                push_failure(failures, Some(names[k].clone()), &reason);
            },
            Some(j) => {
                let p = &ps[j];
                if !matches!(p.outcome, VerifyOutcome::Violated { .. }) {
                    push_failure(
                        failures,
                        Some(p.name.clone()),
                        &wrong_verdict_message("violated", &p.outcome),
                    );
                }
            },
        }
        proof {
            assert(names@.take(k + 1).drop_last() =~= names@.take(k as int));
        }
        k = k + 1;
        assert(failures_view(failures@) =~= before + violated_claims_failures(
            *report,
            names@.take(k as int),
        ));
    }
    assert(names@.take(names@.len() as int) =~= names@);
    let ghost after_claims = failures_view(failures@);
    if names.len() > 0 {
        let mut i: usize = 0;
        while i < n
            invariant
                i <= n == ps@.len(),
                ps == &report.properties,
                names == &exp.violated,
                failures_view(failures@) == after_claims + others_must_hold_failures(
                    ps@.take(i as int),
                    names@,
                ),
            decreases n - i,
        {
            let p = &ps[i];
            let pn = str_chars(p.name.as_str());
            if !names_contain_exec(names, &pn) && !matches!(p.outcome, VerifyOutcome::Holds) {
                let mut reason: Vec<char> = Vec::new();
                extend_str(&mut reason, "not named as violated, so it must still hold, but got ");
                extend_chars(&mut reason, &describe(&p.outcome));
                extend_str(
                    &mut reason,
                    " — a twin that breaks every property does not show which property covers the fault",
                );
                push_failure(failures, Some(p.name.clone()), &reason);
            }
            proof {
                assert(ps@.take(i + 1).drop_last() =~= ps@.take(i as int));
            }
            i = i + 1;
            assert(failures_view(failures@) =~= after_claims + others_must_hold_failures(
                ps@.take(i as int),
                names@,
            ));
        }
        assert(ps@.take(n as int) =~= ps@);
    }
    assert(failures_view(failures@) =~= before + violated_failures(*report, *exp));
}

fn push_named_failures(
    failures: &mut Vec<ExpectationFailure>,
    report: &AutoVerifyReport,
    exp: &Expectations,
)
    ensures
        failures_view(final(failures)@) == failures_view(old(failures)@) + named_failures(
            *report,
            *exp,
        ),
{
    let ghost before = failures_view(failures@);
    let ps = &report.properties;
    let n = ps.len();
    let named = &exp.named;
    let mut k: usize = 0;
    while k < named.len()
        invariant
            k <= named@.len(),
            named == &exp.named,
            ps == &report.properties,
            failures_view(failures@) == before + named_claims_failures(
                *report,
                named@.take(k as int),
            ),
        decreases named@.len() - k,
    {
        let name = str_chars(named[k].0.as_str());
        let want = named[k].1;
        match find_property_index(ps, &name) {
            None => {
                let reason = absent_reason(report, &name, want.label());
                push_failure(failures, Some(named[k].0.clone()), &reason);
            },
            Some(j) => {
                let p = &ps[j];
                let got = match p.outcome {
                    VerifyOutcome::Holds => ExpectedVerdict::Holds,
                    VerifyOutcome::Violated { .. } => ExpectedVerdict::Violated,
                    VerifyOutcome::Unknown { .. } => ExpectedVerdict::Unknown,
                    VerifyOutcome::Skipped { .. } => ExpectedVerdict::Skipped,
                };
                if got != want {
                    push_failure(
                        failures,
                        Some(p.name.clone()),
                        &wrong_verdict_message(want.label(), &p.outcome),
                    );
                }
            },
        }
        proof {
            assert(named@.take(k + 1).drop_last() =~= named@.take(k as int));
        }
        k = k + 1;
        assert(failures_view(failures@) =~= before + named_claims_failures(
            *report,
            named@.take(k as int),
        ));
    }
    assert(named@.take(named@.len() as int) =~= named@);
    let ghost after_named_claims = failures_view(failures@);
    if named.len() > 0 {
        let mut i: usize = 0;
        while i < n
            invariant
                i <= n == ps@.len(),
                ps == &report.properties,
                named == &exp.named,
                failures_view(failures@) == after_named_claims + unnamed_violation_failures(
                    ps@.take(i as int),
                    named@,
                ),
            decreases n - i,
        {
            let p = &ps[i];
            if matches!(p.outcome, VerifyOutcome::Violated { .. }) {
                let pn = str_chars(p.name.as_str());
                if !claims_violated_exec(named, &pn) {
                    let mut reason: Vec<char> = Vec::new();
                    extend_str(
                        &mut reason,
                        "VIOLATED but not named — an unnamed violation is still a failure",
                    );
                    push_failure(failures, Some(p.name.clone()), &reason);
                }
            }
            proof {
                assert(ps@.take(i + 1).drop_last() =~= ps@.take(i as int));
            }
            i = i + 1;
            assert(failures_view(failures@) =~= after_named_claims + unnamed_violation_failures(
                ps@.take(i as int),
                named@,
            ));
        }
        assert(ps@.take(n as int) =~= ps@);
    }
    assert(failures_view(failures@) =~= before + named_failures(*report, *exp));
}

/// Check a report against what the caller claimed. Every claim is evaluated and every unmet
/// one is reported, not just the first; the run satisfies the claims exactly when none is
/// unmet.
pub fn evaluate(report: &AutoVerifyReport, exp: &Expectations) -> (res: ExpectationResult)
    ensures
        failures_view(res.failures@) == expected_failures(*report, *exp),
        res.satisfied == (res.failures@.len() == 0),
{
    let mut failures: Vec<ExpectationFailure> = Vec::new();
    assert(failures_view(failures@) =~= Seq::<FailureView>::empty());
    push_count_failures(&mut failures, report, exp);
    push_all_hold_failures(&mut failures, report, exp);
    push_violated_failures(&mut failures, report, exp);
    push_named_failures(&mut failures, report, exp);
    assert(failures_view(failures@) =~= expected_failures(*report, *exp));
    let satisfied = failures.len() == 0;
    ExpectationResult { satisfied, failures }
}


// ---- laws ----------------------------------------------------------------------------------

proof fn lemma_not_holding_nonempty(ps: Seq<PropertyVerdict>, i: int)
    requires
        0 <= i < ps.len(),
        !(ps[i].outcome is Holds),
    ensures
        not_holding_failures(ps).contains((Some(ps[i].name@), wrong_verdict_reason("holds"@, ps[i].outcome))),
    decreases ps.len(),
{
    let f = (Some(ps[i].name@), wrong_verdict_reason("holds"@, ps[i].outcome));
    if i == ps.len() - 1 {
        assert(not_holding_failures(ps).last() == f);
    } else {
        assert(ps.drop_last()[i] == ps[i]);
        lemma_not_holding_nonempty(ps.drop_last(), i);
        let rest = not_holding_failures(ps.drop_last());
        let k = choose|k: int| 0 <= k < rest.len() && rest[k] == f;
        assert(not_holding_failures(ps)[k] == f);
    }
}

proof fn lemma_others_nonempty(ps: Seq<PropertyVerdict>, names: Seq<String>, i: int)
    requires
        0 <= i < ps.len(),
        !(ps[i].outcome is Holds),
        !names_contain(names, ps[i].name@),
    ensures
        others_must_hold_failures(ps, names).contains((Some(ps[i].name@), must_still_hold_reason(ps[i].outcome))),
    decreases ps.len(),
{
    let f = (Some(ps[i].name@), must_still_hold_reason(ps[i].outcome));
    if i == ps.len() - 1 {
        assert(others_must_hold_failures(ps, names).last() == f);
    } else {
        assert(ps.drop_last()[i] == ps[i]);
        lemma_others_nonempty(ps.drop_last(), names, i);
        let rest = others_must_hold_failures(ps.drop_last(), names);
        let k = choose|k: int| 0 <= k < rest.len() && rest[k] == f;
        assert(others_must_hold_failures(ps, names)[k] == f);
    }
}

proof fn lemma_unnamed_nonempty(
    ps: Seq<PropertyVerdict>,
    named: Seq<(String, ExpectedVerdict)>,
    i: int,
)
    requires
        0 <= i < ps.len(),
        ps[i].outcome is Violated,
        !claims_violated(named, ps[i].name@),
    ensures
        unnamed_violation_failures(ps, named).contains((Some(ps[i].name@), unnamed_violation_reason())),
    decreases ps.len(),
{
    let f = (Some(ps[i].name@), unnamed_violation_reason());
    if i == ps.len() - 1 {
        assert(unnamed_violation_failures(ps, named).last() == f);
    } else {
        assert(ps.drop_last()[i] == ps[i]);
        lemma_unnamed_nonempty(ps.drop_last(), named, i);
        let rest = unnamed_violation_failures(ps.drop_last(), named);
        let k = choose|k: int| 0 <= k < rest.len() && rest[k] == f;
        assert(unnamed_violation_failures(ps, named)[k] == f);
    }
}

proof fn lemma_contains_in_concat<A>(a: Seq<A>, b: Seq<A>, x: A)
    ensures
        a.contains(x) ==> (a + b).contains(x),
        b.contains(x) ==> (a + b).contains(x),
{
    if a.contains(x) {
        let k = choose|k: int| 0 <= k < a.len() && a[k] == x;
        assert((a + b)[k] == x);
    }
    if b.contains(x) {
        let k = choose|k: int| 0 <= k < b.len() && b[k] == x;
        assert((a + b)[a.len() + k] == x);
    }
}

/// A caller who claimed nothing is satisfied by any report.
pub proof fn lemma_empty_claim_is_satisfied_by_anything(r: AutoVerifyReport, e: Expectations)
    requires
        claims_nothing(e),
    ensures
        expected_failures(r, e).len() == 0,
{
    assert(e.violated@ =~= Seq::<String>::empty());
    assert(e.named@ =~= Seq::<(String, ExpectedVerdict)>::empty());
    assert(expected_failures(r, e) =~= Seq::<FailureView>::empty());
}

/// A count claim that the report does not meet is reported first, as a run-level failure
/// (no property named), whatever else was claimed.
pub proof fn lemma_count_mismatch_is_reported_first(r: AutoVerifyReport, e: Expectations)
    requires
        e.count matches Some(want) && r.properties@.len() != want,
    ensures
        expected_failures(r, e).len() > 0,
        expected_failures(r, e)[0] == (None::<Seq<char>>, count_reason(e.count->0, r.properties@.len())),
{
}

/// Under all-hold, any property that did not hold (unknown, skipped or violated) is reported
/// by name, and so is every assertion that did not translate; an empty run fails too.
pub proof fn lemma_all_hold_rejects_anything_undecided(r: AutoVerifyReport, e: Expectations, i: int)
    requires
        e.all_hold,
    ensures
        0 <= i < r.properties@.len() && !(r.properties@[i].outcome is Holds) ==> expected_failures(r, e).contains(
            (Some(r.properties@[i].name@), wrong_verdict_reason("holds"@, r.properties@[i].outcome)),
        ),
        r.properties@.len() == 0 && r.unsupported@.len() == 0 ==> expected_failures(r, e).contains(
            (None::<Seq<char>>, empty_run_reason()),
        ),
        r.properties@.len() == 0 ==> expected_failures(r, e).len() > 0,
{
    let c = count_failures(r, e);
    let a = all_hold_failures(r, e);
    let v = violated_failures(r, e);
    let nm = named_failures(r, e);
    let u = untranslated_failures(r.unsupported@);
    let em = if r.properties@.len() == 0 && r.unsupported@.len() == 0 {
        seq![(None::<Seq<char>>, empty_run_reason())]
    } else {
        seq![]
    };
    let h = not_holding_failures(r.properties@);
    assert(a == u + em + h);
    if 0 <= i < r.properties@.len() && !(r.properties@[i].outcome is Holds) {
        let f = (Some(r.properties@[i].name@), wrong_verdict_reason("holds"@, r.properties@[i].outcome));
        lemma_not_holding_nonempty(r.properties@, i);
        lemma_contains_in_concat(u + em, h, f);
        lemma_contains_in_concat(c, a, f);
        lemma_contains_in_concat(c + a, v, f);
        lemma_contains_in_concat(c + a + v, nm, f);
    }
    if r.properties@.len() == 0 && r.unsupported@.len() == 0 {
        let f = (None::<Seq<char>>, empty_run_reason());
        assert(em[0] == f);
        lemma_contains_in_concat(u, em, f);
        lemma_contains_in_concat(u + em, h, f);
        lemma_contains_in_concat(c, a, f);
        lemma_contains_in_concat(c + a, v, f);
        lemma_contains_in_concat(c + a + v, nm, f);
    }
    if r.properties@.len() == 0 && r.unsupported@.len() > 0 {
        assert(u.len() > 0) by {
            assert(u == untranslated_failures(r.unsupported@.drop_last()).push(
                (Some(r.unsupported@.last().0@), untranslated_reason(r.unsupported@.last().1@)),
            ));
        }
    }
}

/// Under a violated claim, a property that is neither named nor holding is reported: a twin
/// that breaks everything does not pass.
pub proof fn lemma_violated_requires_the_rest_to_hold(r: AutoVerifyReport, e: Expectations, i: int)
    requires
        e.violated@.len() > 0,
        0 <= i < r.properties@.len(),
        !(r.properties@[i].outcome is Holds),
        !names_contain(e.violated@, r.properties@[i].name@),
    ensures
        expected_failures(r, e).contains(
            (Some(r.properties@[i].name@), must_still_hold_reason(r.properties@[i].outcome)),
        ),
{
    let f = (Some(r.properties@[i].name@), must_still_hold_reason(r.properties@[i].outcome));
    let c = count_failures(r, e);
    let a = all_hold_failures(r, e);
    let v = violated_failures(r, e);
    let nm = named_failures(r, e);
    let vc = violated_claims_failures(r, e.violated@);
    let o = others_must_hold_failures(r.properties@, e.violated@);
    lemma_others_nonempty(r.properties@, e.violated@, i);
    lemma_contains_in_concat(vc, o, f);
    lemma_contains_in_concat(c + a, v, f);
    lemma_contains_in_concat(c + a + v, nm, f);
}

/// Under a named claim, a violated property that was not named as violated is reported:
/// surprises are never silent.
pub proof fn lemma_unnamed_violation_is_reported(r: AutoVerifyReport, e: Expectations, i: int)
    requires
        e.named@.len() > 0,
        0 <= i < r.properties@.len(),
        r.properties@[i].outcome is Violated,
        !claims_violated(e.named@, r.properties@[i].name@),
    ensures
        expected_failures(r, e).contains((Some(r.properties@[i].name@), unnamed_violation_reason())),
{
    let f = (Some(r.properties@[i].name@), unnamed_violation_reason());
    let c = count_failures(r, e);
    let a = all_hold_failures(r, e);
    let v = violated_failures(r, e);
    let nc = named_claims_failures(r, e.named@);
    let un = unnamed_violation_failures(r.properties@, e.named@);
    lemma_unnamed_nonempty(r.properties@, e.named@, i);
    lemma_contains_in_concat(nc, un, f);
    lemma_contains_in_concat(c + a + v, named_failures(r, e), f);
}

proof fn lemma_find_first(ps: Seq<PropertyVerdict>, name: Seq<char>, j: int)
    requires
        0 <= j < ps.len(),
        ps[j].name@ == name,
        forall|i: int| 0 <= i < j ==> #[trigger] ps[i].name@ != name,
    ensures
        find_property(ps, name) == Some(ps[j]),
    decreases j,
{
    if j > 0 {
        assert(ps[0].name@ != name);
        let t = ps.drop_first();
        assert forall|i: int| 0 <= i < j - 1 implies #[trigger] t[i].name@ != name by {
            assert(t[i] == ps[i + 1]);
        }
        lemma_find_first(t, name, j - 1);
    }
}

proof fn lemma_named_claims_contain(
    r: AutoVerifyReport,
    named: Seq<(String, ExpectedVerdict)>,
    k: int,
    f: FailureView,
)
    requires
        0 <= k < named.len(),
        named_claim_failure(r, named[k].0@, named[k].1).contains(f),
    ensures
        named_claims_failures(r, named).contains(f),
    decreases named.len(),
{
    let rest = named_claims_failures(r, named.drop_last());
    let last = named_claim_failure(r, named.last().0@, named.last().1);
    if k == named.len() - 1 {
        lemma_contains_in_concat(rest, last, f);
    } else {
        assert(named.drop_last()[k] == named[k]);
        lemma_named_claims_contain(r, named.drop_last(), k, f);
        lemma_contains_in_concat(rest, last, f);
    }
}

/// Under a named claim, a property whose verdict is not the one claimed for it is reported by
/// name, with the claimed verdict and the verdict it got, and the report does not satisfy the
/// claims: a claim is checked whatever verdict the property got, holding included.
pub proof fn lemma_wrong_named_verdict_is_reported(r: AutoVerifyReport, e: Expectations, k: int, j: int)
    requires
        0 <= k < e.named@.len(),
        0 <= j < r.properties@.len(),
        r.properties@[j].name@ == e.named@[k].0@,
        forall|i: int| 0 <= i < j ==> #[trigger] r.properties@[i].name@ != e.named@[k].0@,
        !((r.properties@[j].outcome is Holds && e.named@[k].1 == ExpectedVerdict::Holds) || (
        r.properties@[j].outcome is Violated && e.named@[k].1 == ExpectedVerdict::Violated) || (
        r.properties@[j].outcome is Unknown && e.named@[k].1 == ExpectedVerdict::Unknown) || (
        r.properties@[j].outcome is Skipped && e.named@[k].1 == ExpectedVerdict::Skipped)),
    ensures
        expected_failures(r, e).contains(
            (
                Some(e.named@[k].0@),
                "expected "@ + verdict_label(e.named@[k].1) + ", got "@ + describe_spec(
                    r.properties@[j].outcome,
                ),
            ),
        ),
        expected_failures(r, e).len() > 0,
{
    let name = e.named@[k].0@;
    let want = e.named@[k].1;
    let p = r.properties@[j];
    let f = (Some(name), "expected "@ + verdict_label(want) + ", got "@ + describe_spec(p.outcome));
    lemma_find_first(r.properties@, name, j);
    assert(named_claim_failure(r, name, want) =~= seq![f]);
    assert(named_claim_failure(r, name, want)[0] == f);
    lemma_named_claims_contain(r, e.named@, k, f);
    let c = count_failures(r, e);
    let a = all_hold_failures(r, e);
    let v = violated_failures(r, e);
    let nc = named_claims_failures(r, e.named@);
    let un = if e.named@.len() == 0 {
        seq![]
    } else {
        unnamed_violation_failures(r.properties@, e.named@)
    };
    lemma_contains_in_concat(nc, un, f);
    assert(named_failures(r, e) == nc + un);
    lemma_contains_in_concat(c + a + v, named_failures(r, e), f);
}

/// Outcome `o` shows verdict `v`.
pub open spec fn shows(o: VerifyOutcome, v: ExpectedVerdict) -> bool {
    (o is Holds && v == ExpectedVerdict::Holds) || (o is Violated && v == ExpectedVerdict::Violated)
        || (o is Unknown && v == ExpectedVerdict::Unknown) || (o is Skipped && v
        == ExpectedVerdict::Skipped)
}

/// `ps[j]` is the first property named `name`.
pub open spec fn first_named(ps: Seq<PropertyVerdict>, name: Seq<char>, j: int) -> bool {
    0 <= j < ps.len() && ps[j].name@ == name && forall|i: int|
        0 <= i < j ==> #[trigger] ps[i].name@ != name
}

/// The first property named `name` shows verdict `want`.
pub open spec fn claim_met(ps: Seq<PropertyVerdict>, name: Seq<char>, want: ExpectedVerdict) -> bool {
    exists|j: int| #[trigger] first_named(ps, name, j) && shows(ps[j].outcome, want)
}

proof fn lemma_named_claims_met(r: AutoVerifyReport, named: Seq<(String, ExpectedVerdict)>)
    requires
        forall|k: int|
            #![trigger named[k]]
            0 <= k < named.len() ==> claim_met(r.properties@, named[k].0@, named[k].1),
    ensures
        named_claims_failures(r, named).len() == 0,
    decreases named.len(),
{
    if named.len() > 0 {
        let k = named.len() - 1;
        assert(claim_met(r.properties@, named[k].0@, named[k].1));
        let j = choose|j: int|
            #[trigger] first_named(r.properties@, named[k].0@, j) && shows(
                r.properties@[j].outcome,
                named[k].1,
            );
        lemma_find_first(r.properties@, named[k].0@, j);
        assert forall|k2: int| #![trigger named.drop_last()[k2]] 0 <= k2 < named.drop_last().len() implies claim_met(
            r.properties@,
            named.drop_last()[k2].0@,
            named.drop_last()[k2].1,
        ) by {
            assert(named.drop_last()[k2] == named[k2]);
        }
        lemma_named_claims_met(r, named.drop_last());
    }
}

proof fn lemma_no_unnamed_violation(ps: Seq<PropertyVerdict>, named: Seq<(String, ExpectedVerdict)>)
    requires
        forall|i: int|
            0 <= i < ps.len() && (#[trigger] ps[i]).outcome is Violated ==> exists|k: int|
                0 <= k < named.len() && #[trigger] named[k].0@ == ps[i].name@ && named[k].1
                    == ExpectedVerdict::Violated,
    ensures
        unnamed_violation_failures(ps, named).len() == 0,
    decreases ps.len(),
{
    if ps.len() > 0 {
        let p = ps.last();
        assert(ps[ps.len() - 1] == p);
        if p.outcome is Violated {
            let k = choose|k: int|
                0 <= k < named.len() && #[trigger] named[k].0@ == p.name@ && named[k].1
                    == ExpectedVerdict::Violated;
            assert(claims_violated(named, p.name@));
        }
        assert forall|i: int|
            0 <= i < ps.drop_last().len() && (#[trigger] ps.drop_last()[i]).outcome is Violated implies exists|k: int|
                0 <= k < named.len() && #[trigger] named[k].0@ == ps.drop_last()[i].name@ && named[k].1
                    == ExpectedVerdict::Violated by {
            assert(ps.drop_last()[i] == ps[i]);
        }
        lemma_no_unnamed_violation(ps.drop_last(), named);
    }
}

/// A caller who only names verdicts is satisfied exactly when it is right: when every named
/// property is in the report with the verdict claimed for it, and every violated property was
/// named as violated, no failure is reported.
pub proof fn lemma_met_named_claims_are_satisfied(r: AutoVerifyReport, e: Expectations)
    requires
        !e.all_hold,
        e.count is None,
        e.violated@.len() == 0,
        forall|k: int|
            #![trigger e.named@[k]]
            0 <= k < e.named@.len() ==> claim_met(r.properties@, e.named@[k].0@, e.named@[k].1),
        forall|i: int|
            0 <= i < r.properties@.len() && (#[trigger] r.properties@[i]).outcome is Violated
                ==> exists|k: int|
                0 <= k < e.named@.len() && #[trigger] e.named@[k].0@ == r.properties@[i].name@
                    && e.named@[k].1 == ExpectedVerdict::Violated,
    ensures
        expected_failures(r, e).len() == 0,
{
    lemma_named_claims_met(r, e.named@);
    lemma_no_unnamed_violation(r.properties@, e.named@);
    assert(e.violated@ =~= Seq::<String>::empty());
    assert(violated_failures(r, e) =~= Seq::<FailureView>::empty());
    assert(expected_failures(r, e) =~= named_failures(r, e));
}

proof fn lemma_all_holding(ps: Seq<PropertyVerdict>)
    requires
        forall|i: int| 0 <= i < ps.len() ==> (#[trigger] ps[i]).outcome is Holds,
    ensures
        not_holding_failures(ps).len() == 0,
    decreases ps.len(),
{
    if ps.len() > 0 {
        assert(ps[ps.len() - 1] == ps.last());
        assert forall|i: int| 0 <= i < ps.drop_last().len() implies (#[trigger] ps.drop_last()[i]).outcome is Holds by {
            assert(ps.drop_last()[i] == ps[i]);
        }
        lemma_all_holding(ps.drop_last());
    }
}

/// A caller who claims that everything holds is satisfied when it is right: a report with at
/// least one property, every property holding and nothing left untranslated gives no failure.
pub proof fn lemma_all_hold_is_satisfied_when_everything_holds(r: AutoVerifyReport, e: Expectations)
    requires
        e.all_hold,
        e.count is None,
        e.violated@.len() == 0,
        e.named@.len() == 0,
        r.properties@.len() > 0,
        r.unsupported@.len() == 0,
        forall|i: int| 0 <= i < r.properties@.len() ==> (#[trigger] r.properties@[i]).outcome is Holds,
    ensures
        expected_failures(r, e).len() == 0,
{
    lemma_all_holding(r.properties@);
    assert(untranslated_failures(r.unsupported@) =~= Seq::<FailureView>::empty());
    assert(e.violated@ =~= Seq::<String>::empty());
    assert(e.named@ =~= Seq::<(String, ExpectedVerdict)>::empty());
    assert(all_hold_failures(r, e) =~= Seq::<FailureView>::empty());
    assert(violated_failures(r, e) =~= Seq::<FailureView>::empty());
    assert(named_failures(r, e) =~= Seq::<FailureView>::empty());
    assert(expected_failures(r, e) =~= Seq::<FailureView>::empty());
}

proof fn lemma_violated_claims_met(r: AutoVerifyReport, names: Seq<String>)
    requires
        forall|k: int|
            #![trigger names[k]]
            0 <= k < names.len() ==> claim_met(r.properties@, names[k]@, ExpectedVerdict::Violated),
    ensures
        violated_claims_failures(r, names).len() == 0,
    decreases names.len(),
{
    if names.len() > 0 {
        let k = names.len() - 1;
        assert(claim_met(r.properties@, names[k]@, ExpectedVerdict::Violated));
        let j = choose|j: int|
            #[trigger] first_named(r.properties@, names[k]@, j) && shows(
                r.properties@[j].outcome,
                ExpectedVerdict::Violated,
            );
        lemma_find_first(r.properties@, names[k]@, j);
        assert forall|k2: int| #![trigger names.drop_last()[k2]] 0 <= k2 < names.drop_last().len() implies claim_met(
            r.properties@,
            names.drop_last()[k2]@,
            ExpectedVerdict::Violated,
        ) by {
            assert(names.drop_last()[k2] == names[k2]);
        }
        lemma_violated_claims_met(r, names.drop_last());
    }
}

proof fn lemma_others_hold(ps: Seq<PropertyVerdict>, names: Seq<String>)
    requires
        forall|i: int|
            0 <= i < ps.len() && !((#[trigger] ps[i]).outcome is Holds) ==> exists|k: int|
                0 <= k < names.len() && #[trigger] names[k]@ == ps[i].name@,
    ensures
        others_must_hold_failures(ps, names).len() == 0,
    decreases ps.len(),
{
    if ps.len() > 0 {
        let p = ps.last();
        assert(ps[ps.len() - 1] == p);
        if !(p.outcome is Holds) {
            let k = choose|k: int| 0 <= k < names.len() && #[trigger] names[k]@ == p.name@;
            assert(names_contain(names, p.name@));
        }
        assert forall|i: int|
            0 <= i < ps.drop_last().len() && !((#[trigger] ps.drop_last()[i]).outcome is Holds) implies exists|k: int|
                0 <= k < names.len() && #[trigger] names[k]@ == ps.drop_last()[i].name@ by {
            assert(ps.drop_last()[i] == ps[i]);
        }
        lemma_others_hold(ps.drop_last(), names);
    }
}

/// A caller who names the violated properties is satisfied when it is right: when each named
/// property is in the report and violated, and every property it did not name holds, no
/// failure is reported.
pub proof fn lemma_met_violated_claims_are_satisfied(r: AutoVerifyReport, e: Expectations)
    requires
        !e.all_hold,
        e.count is None,
        e.named@.len() == 0,
        forall|k: int|
            #![trigger e.violated@[k]]
            0 <= k < e.violated@.len() ==> claim_met(r.properties@, e.violated@[k]@, ExpectedVerdict::Violated),
        forall|i: int|
            0 <= i < r.properties@.len() && !((#[trigger] r.properties@[i]).outcome is Holds) ==> exists|k: int|
                0 <= k < e.violated@.len() && #[trigger] e.violated@[k]@ == r.properties@[i].name@,
    ensures
        expected_failures(r, e).len() == 0,
{
    lemma_violated_claims_met(r, e.violated@);
    lemma_others_hold(r.properties@, e.violated@);
    assert(e.named@ =~= Seq::<(String, ExpectedVerdict)>::empty());
    assert(named_failures(r, e) =~= Seq::<FailureView>::empty());
    assert(expected_failures(r, e) =~= violated_failures(r, e));
}

/// A count claim that the report meets adds no failure: on its own it is satisfied.
pub proof fn lemma_met_count_is_satisfied(r: AutoVerifyReport, e: Expectations)
    requires
        e.count matches Some(n) && n == r.properties@.len(),
        !e.all_hold,
        e.violated@.len() == 0,
        e.named@.len() == 0,
    ensures
        expected_failures(r, e).len() == 0,
{
    assert(e.violated@ =~= Seq::<String>::empty());
    assert(e.named@ =~= Seq::<(String, ExpectedVerdict)>::empty());
    assert(expected_failures(r, e) =~= Seq::<FailureView>::empty());
}

/// Every verdict's label parses back to that verdict.
pub proof fn lemma_label_parses_back(v: ExpectedVerdict)
    ensures
        parse_verdict_spec(verdict_label(v)) == Some(v),
{
    reveal_strlit("holds");
    reveal_strlit("violated");
    reveal_strlit("unknown");
    reveal_strlit("skipped");
    reveal_strlit("bottom");
    reveal_strlit("⊥");
    let s = verdict_label(v);
    assert(trim_start(s) == s);
    assert(trim_end(s) == s);
    assert(ascii_lowercase(s) =~= s);
}


proof fn lemma_lower_keeps_white_space(c: char)
    ensures
        is_white_space(ascii_lower(c)) == is_white_space(c),
        ascii_lower(ascii_lower(c)) == ascii_lower(c),
{
}

proof fn lemma_trim_start_lower(s: Seq<char>)
    ensures
        trim_start(ascii_lowercase(s)) == ascii_lowercase(trim_start(s)),
    decreases s.len(),
{
    if s.len() > 0 {
        lemma_lower_keeps_white_space(s[0]);
        assert(ascii_lowercase(s)[0] == ascii_lower(s[0]));
        if is_white_space(s[0]) {
            assert(ascii_lowercase(s).drop_first() =~= ascii_lowercase(s.drop_first()));
            lemma_trim_start_lower(s.drop_first());
        }
    }
}

proof fn lemma_trim_end_lower(s: Seq<char>)
    ensures
        trim_end(ascii_lowercase(s)) == ascii_lowercase(trim_end(s)),
    decreases s.len(),
{
    if s.len() > 0 {
        lemma_lower_keeps_white_space(s.last());
        assert(ascii_lowercase(s).last() == ascii_lower(s.last()));
        if is_white_space(s.last()) {
            assert(ascii_lowercase(s).drop_last() =~= ascii_lowercase(s.drop_last()));
            lemma_trim_end_lower(s.drop_last());
        }
    }
}

/// Parsing a verdict ignores ASCII case: a spelling and its lower-case form always name the
/// same verdict (or both none).
pub proof fn lemma_parse_ignores_case(s: Seq<char>)
    ensures
        parse_verdict_spec(ascii_lowercase(s)) == parse_verdict_spec(s),
{
    lemma_trim_start_lower(s);
    lemma_trim_end_lower(trim_start(s));
    let t = trim(s);
    assert(trim(ascii_lowercase(s)) == ascii_lowercase(t));
    assert forall|i: int| 0 <= i < t.len() implies ascii_lowercase(ascii_lowercase(t))[i]
        == ascii_lowercase(t)[i] by {
        lemma_lower_keeps_white_space(t[i]);
    }
    assert(ascii_lowercase(ascii_lowercase(t)) =~= ascii_lowercase(t));
}

} // verus!
