use mununu_core::expectations::{evaluate, ExpectedVerdict, Expectations};
use mununu_core::report::{AutoVerifyReport, PropertyVerdict, SvaKind, VerifyOutcome};

fn report(props: &[(&str, VerifyOutcome)]) -> AutoVerifyReport {
    AutoVerifyReport {
        properties: props
            .iter()
            .map(|(name, outcome)| PropertyVerdict {
                name: (*name).to_string(),
                kind: SvaKind::Assert,
                formula: format!("formula::{name}"),
                outcome: outcome.clone(),
            })
            .collect(),
        ..Default::default()
    }
}

fn named(pairs: &[(&str, ExpectedVerdict)]) -> Expectations {
    Expectations {
        named: pairs.iter().map(|(n, v)| ((*n).to_string(), *v)).collect(),
        ..Default::default()
    }
}

fn violated(names: &[&str]) -> Expectations {
    Expectations {
        violated: names.iter().map(|n| (*n).to_string()).collect(),
        ..Default::default()
    }
}

#[test]
fn all_hold_is_satisfied_when_everything_holds() {
    let r = report(&[("a", VerifyOutcome::Holds), ("b", VerifyOutcome::Holds)]);
    let exp = Expectations {
        all_hold: true,
        ..Default::default()
    };
    assert!(evaluate(&r, &exp).satisfied);
}

#[test]
fn all_hold_fails_on_an_undecided_property() {
    let r = report(&[
        ("a", VerifyOutcome::Holds),
        ("b", VerifyOutcome::Unknown { unknown_cells: 32 }),
    ]);
    let res = evaluate(
        &r,
        &Expectations {
            all_hold: true,
            ..Default::default()
        },
    );
    assert!(!res.satisfied);
    assert_eq!(res.failures.len(), 1);
    assert_eq!(res.failures[0].property.as_deref(), Some("b"));
    assert!(res.failures[0].reason.contains("unknown/⊥ (32 cell(s))"));
}

#[test]
fn all_hold_fails_on_a_skipped_property() {
    let r = report(&[(
        "a",
        VerifyOutcome::Skipped {
            reason: "bit cap".into(),
        },
    )]);
    assert!(
        !evaluate(
            &r,
            &Expectations {
                all_hold: true,
                ..Default::default()
            }
        )
        .satisfied
    );
}

#[test]
fn all_hold_fails_when_an_assertion_did_not_translate() {
    let mut r = report(&[("a", VerifyOutcome::Holds)]);
    r.unsupported
        .push(("b".into(), "unsupported binary op: BinaryAnd".into()));
    let res = evaluate(
        &r,
        &Expectations {
            all_hold: true,
            ..Default::default()
        },
    );
    assert!(!res.satisfied);
    assert!(
        res.failures[0].reason.contains("BinaryAnd"),
        "the refusal reason must be carried through — mununu says exactly why, and a harness \
         that drops it reports only that something is 'absent'. Got: {}",
        res.failures[0].reason
    );
}

#[test]
fn all_hold_fails_on_an_empty_run() {
    assert!(
        !evaluate(
            &report(&[]),
            &Expectations {
                all_hold: true,
                ..Default::default()
            }
        )
        .satisfied
    );
}

#[test]
fn count_catches_a_binding_that_stopped_binding() {
    let r = report(&[("a", VerifyOutcome::Holds)]);
    let exp = Expectations {
        all_hold: true,
        count: Some(2),
        ..Default::default()
    };
    let res = evaluate(&r, &exp);
    assert!(
        !res.satisfied,
        "a smaller all-green set must NOT read as a pass"
    );
    assert!(
        res.failures
            .iter()
            .any(|f| f.property.is_none() && f.reason.contains("expected 2 properties, got 1"))
    );
}

#[test]
fn count_is_usable_on_its_own() {
    let r = report(&[("a", VerifyOutcome::Holds), ("b", VerifyOutcome::Holds)]);
    assert!(
        evaluate(
            &r,
            &Expectations {
                count: Some(2),
                ..Default::default()
            }
        )
        .satisfied
    );
}

#[test]
fn violated_requires_the_named_to_fail_and_the_rest_to_hold() {
    let r = report(&[
        ("twin", VerifyOutcome::Violated { false_cells: 1 }),
        ("other", VerifyOutcome::Holds),
    ]);
    assert!(evaluate(&r, &violated(&["twin"])).satisfied);
}

#[test]
fn violated_fails_when_the_twin_breaks_everything() {
    let r = report(&[
        ("twin", VerifyOutcome::Violated { false_cells: 1 }),
        ("other", VerifyOutcome::Violated { false_cells: 4 }),
    ]);
    let res = evaluate(&r, &violated(&["twin"]));
    assert!(!res.satisfied);
    assert_eq!(res.failures[0].property.as_deref(), Some("other"));
}

#[test]
fn violated_fails_when_the_named_property_holds() {
    let r = report(&[("twin", VerifyOutcome::Holds)]);
    assert!(!evaluate(&r, &violated(&["twin"])).satisfied);
}

#[test]
fn named_matches_each_claimed_verdict() {
    let r = report(&[
        ("a", VerifyOutcome::Holds),
        ("b", VerifyOutcome::Unknown { unknown_cells: 4 }),
        ("ignored", VerifyOutcome::Skipped { reason: "x".into() }),
    ]);
    let exp = named(&[
        ("a", ExpectedVerdict::Holds),
        ("b", ExpectedVerdict::Unknown),
    ]);
    assert!(
        evaluate(&r, &exp).satisfied,
        "an UNNAMED non-violated property is ignored by this verb"
    );
}

#[test]
fn named_unknown_fails_once_the_property_becomes_decidable() {
    let r = report(&[("sva_1", VerifyOutcome::Violated { false_cells: 1 })]);
    let res = evaluate(&r, &named(&[("sva_1", ExpectedVerdict::Unknown)]));
    assert!(
        !res.satisfied,
        "a ⊥ pinned by name is a CLAIM about the engine, and must fail when it stops holding"
    );
}

#[test]
fn named_fails_on_an_unnamed_violation() {
    let r = report(&[
        ("a", VerifyOutcome::Holds),
        ("surprise", VerifyOutcome::Violated { false_cells: 2 }),
    ]);
    let res = evaluate(&r, &named(&[("a", ExpectedVerdict::Holds)]));
    assert!(!res.satisfied);
    assert_eq!(res.failures[0].property.as_deref(), Some("surprise"));
    assert!(res.failures[0].reason.contains("not named"));
}

#[test]
fn named_reports_an_absent_property_with_its_refusal_reason() {
    let mut r = report(&[("a", VerifyOutcome::Holds)]);
    r.unsupported
        .push(("gone".into(), "dynamic bit-select `sig[idx]`".into()));
    let res = evaluate(&r, &named(&[("gone", ExpectedVerdict::Holds)]));
    assert!(!res.satisfied);
    assert!(res.failures[0].reason.contains("dynamic bit-select"));
}

#[test]
fn named_reports_a_genuinely_missing_property_plainly() {
    let r = report(&[("a", VerifyOutcome::Holds)]);
    let res = evaluate(&r, &named(&[("typo", ExpectedVerdict::Holds)]));
    assert!(!res.satisfied);
    assert!(res.failures[0].reason.contains("no property of that name"));
}

#[test]
fn no_claim_is_satisfied_by_anything() {
    let r = report(&[("a", VerifyOutcome::Violated { false_cells: 1 })]);
    let exp = Expectations::default();
    assert!(exp.is_empty());
    assert!(evaluate(&r, &exp).satisfied);
}

#[test]
fn verdict_spelling_is_case_insensitive() {
    for s in ["HOLDS", "holds", "Holds", " holds "] {
        assert_eq!(
            ExpectedVerdict::parse(s),
            Some(ExpectedVerdict::Holds),
            "{s}"
        );
    }
    assert_eq!(
        ExpectedVerdict::parse("UNKNOWN"),
        Some(ExpectedVerdict::Unknown)
    );
    assert_eq!(ExpectedVerdict::parse("⊥"), Some(ExpectedVerdict::Unknown));
    assert_eq!(
        ExpectedVerdict::parse("skipped"),
        Some(ExpectedVerdict::Skipped)
    );
    assert_eq!(ExpectedVerdict::parse("nonsense"), None);
}

#[test]
fn every_failure_is_reported_not_just_the_first() {
    let r = report(&[
        ("a", VerifyOutcome::Unknown { unknown_cells: 1 }),
        ("b", VerifyOutcome::Violated { false_cells: 1 }),
    ]);
    let res = evaluate(
        &r,
        &Expectations {
            all_hold: true,
            count: Some(3),
            ..Default::default()
        },
    );
    assert_eq!(
        res.failures.len(),
        3,
        "one count failure + two property failures"
    );
}

#[test]
fn the_failure_messages_are_exact() {
    let mut r = report(&[
        ("a", VerifyOutcome::Violated { false_cells: 2 }),
        ("b", VerifyOutcome::Skipped { reason: "bit cap".into() }),
    ]);
    r.unsupported.push(("c".into(), "why".into()));
    let res = evaluate(
        &r,
        &Expectations {
            all_hold: false,
            count: Some(1),
            violated: vec!["a".into(), "c".into()],
            named: vec![("b".into(), ExpectedVerdict::Holds)],
        },
    );
    let got: Vec<(Option<&str>, &str)> = res
        .failures
        .iter()
        .map(|f| (f.property.as_deref(), f.reason.as_str()))
        .collect();
    assert_eq!(
        got,
        vec![
            (
                None,
                "expected 1 property, got 2 — a binding that stopped binding produces FEWER \
                 properties, and a smaller all-green set reads as a clean pass"
            ),
            (Some("c"), "expected violated, but it did not translate: why"),
            (
                Some("b"),
                "not named as violated, so it must still hold, but got skipped (bit cap) — a \
                 twin that breaks every property does not show which property covers the fault"
            ),
            (Some("b"), "expected holds, got skipped (bit cap)"),
            (
                Some("a"),
                "VIOLATED but not named — an unnamed violation is still a failure"
            ),
        ]
    );
    assert!(!res.satisfied);
}

#[test]
fn labels_parse_back_and_bottom_is_unknown() {
    for v in [
        ExpectedVerdict::Holds,
        ExpectedVerdict::Violated,
        ExpectedVerdict::Unknown,
        ExpectedVerdict::Skipped,
    ] {
        assert_eq!(ExpectedVerdict::parse(v.label()), Some(v));
    }
    assert_eq!(ExpectedVerdict::parse("Bottom"), Some(ExpectedVerdict::Unknown));
    assert_eq!(VerifyOutcome::Violated { false_cells: 3 }.label(), "violated");
}
