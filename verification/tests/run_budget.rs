use mununu_core::run_budget::{
    child_deadline_at, clamp_query_ms, expired_at, parse_budget_ms, parse_budget_ms_with_default, remaining_at,
    Budget, StopReason, DEFAULT_PROPERTY_BUDGET_MS, DEFAULT_RUN_BUDGET_MS, PROPERTY_BUDGET_ENV,
    RUN_BUDGET_ENV,
};

#[test]
fn unbounded_never_expires_and_has_no_remaining() {
    let b = Budget::unbounded();
    assert!(!b.expired());
    assert_eq!(b.remaining_ms(), None);
}

#[test]
fn a_zero_budget_is_immediately_expired() {
    assert!(Budget::with_ms(0).expired());
}

#[test]
fn cancel_expires_even_an_unbounded_budget() {
    let b = Budget::unbounded();
    assert!(!b.expired());
    b.cancel();
    assert!(b.expired(), "cancellation is independent of the deadline");
}

#[test]
fn child_clamps_to_the_earlier_deadline() {
    let outer = Budget::with_ms(0);
    let child = Budget::child(&outer, Some(60_000));
    assert!(
        child.expired(),
        "a long child budget cannot extend an exhausted run budget"
    );

    let generous = Budget::with_ms(60_000);
    let short = Budget::child(&generous, Some(0));
    assert!(short.expired(), "the child's own deadline still applies");

    let inherit = Budget::child(&generous, None);
    assert!(!inherit.expired());
    assert!(
        inherit.remaining_ms().is_some(),
        "inherits the parent deadline"
    );
}

#[test]
fn cancelling_the_parent_cancels_the_child() {
    let outer = Budget::unbounded();
    let child = Budget::child(&outer, Some(60_000));
    outer.cancel();
    assert!(child.expired(), "the cancel flag is shared");
}

#[test]
fn a_clone_shares_the_flag_and_the_deadline() {
    let b = Budget::with_ms(60_000);
    let c = b.clone();
    assert!(!c.expired());
    b.cancel();
    assert!(c.expired());
    assert!(c.remaining_ms().unwrap() <= 60_000);
}

#[test]
fn remaining_never_exceeds_the_budget() {
    let b = Budget::with_ms(60_000);
    let r = b.remaining_ms().expect("bounded");
    assert!(r <= 60_000 && r >= 59_000);
    assert_eq!(Budget::with_ms_opt(None).remaining_ms(), None);
    assert!(Budget::with_ms_opt(Some(0)).expired());
    assert_eq!(Budget::default().remaining_ms(), None);
}

#[test]
fn clamp_query_ms_never_returns_zero() {
    let expired = Budget::with_ms(0);
    assert_eq!(
        clamp_query_ms(5000, expired.remaining_ms()),
        1,
        "0 would mean `no timeout` to z3 — the opposite of an expired budget"
    );
}

#[test]
fn clamp_query_ms_passes_through_when_unbounded() {
    assert_eq!(clamp_query_ms(5000, Budget::unbounded().remaining_ms()), 5000);
}

#[test]
fn clamp_query_ms_takes_the_smaller_and_never_returns_zero() {
    assert_eq!(clamp_query_ms(5000, Some(250)), 250);
    assert_eq!(clamp_query_ms(5000, Some(9000)), 5000);
    assert_eq!(clamp_query_ms(0, Some(0)), 1);
    assert_eq!(clamp_query_ms(0, None), 1);
    // More time left than 32 bits can hold still leaves the default in force.
    assert_eq!(clamp_query_ms(5000, Some(1u64 << 32)), 5000);
    assert_eq!(clamp_query_ms(u32::MAX, Some(u64::MAX)), u32::MAX);
    assert_eq!(clamp_query_ms(u32::MAX, Some(7)), 7);
}

#[test]
fn child_deadline_is_the_earlier_of_parent_and_own() {
    // 1 ms made 10 ns into the parent's clock ends at 1_000_010 ns.
    assert_eq!(child_deadline_at(Some(5_000_000), Some(1), 10), Some(1_000_010));
    assert_eq!(child_deadline_at(Some(500), Some(1), 10), Some(500));
    assert_eq!(child_deadline_at(None, Some(2), 0), Some(2_000_000));
    assert_eq!(child_deadline_at(Some(42), None, 99), Some(42));
    assert_eq!(child_deadline_at(None, None, 99), None);
}

#[test]
fn the_decisions_over_plain_clock_values() {
    assert!(expired_at(true, None, 0));
    assert!(!expired_at(false, None, u128::MAX));
    assert!(expired_at(false, Some(10), 10));
    assert!(!expired_at(false, Some(10), 9));
    assert_eq!(remaining_at(Some(5_000_000), 1_000_000), Some(4));
    assert_eq!(remaining_at(Some(5_999_999), 0), Some(5));
    assert_eq!(remaining_at(Some(5), 9), Some(0));
    assert_eq!(remaining_at(None, 9), None);
    assert_eq!(remaining_at(Some(u128::MAX), 0), Some(u64::MAX));
}

#[test]
fn parse_budget_with_default_ladder() {
    assert_eq!(
        parse_budget_ms_with_default(None, 900_000),
        Some(900_000),
        "unset ⇒ the DEFAULT (this is the C5 behaviour change)"
    );
    assert_eq!(
        parse_budget_ms_with_default(Some("0".into()), 900_000),
        None,
        "0 is the explicit escape hatch"
    );
    assert_eq!(
        parse_budget_ms_with_default(Some(" 250 ".into()), 900_000),
        Some(250),
        "an explicit value wins, trimmed"
    );
    assert_eq!(
        parse_budget_ms_with_default(Some("garbage".into()), 900_000),
        Some(900_000),
        "unparseable falls back to the default, NOT to unbounded — the safe direction"
    );
}

#[test]
fn shipped_defaults_are_the_measured_ones() {
    assert_eq!(DEFAULT_PROPERTY_BUDGET_MS, 900_000, "15 min/property");
    assert_eq!(DEFAULT_RUN_BUDGET_MS, 3_600_000, "1 h/run");
    assert!(
        DEFAULT_PROPERTY_BUDGET_MS * 2 < DEFAULT_RUN_BUDGET_MS,
        "the run budget must comfortably exceed a single property's, else one slow property \
         consumes the whole run"
    );
    assert_eq!(PROPERTY_BUDGET_ENV, "MUNUNU_PROPERTY_BUDGET_MS");
    assert_eq!(RUN_BUDGET_ENV, "MUNUNU_VERIFY_BUDGET_MS");
}

#[test]
fn parse_budget_ladder() {
    assert_eq!(parse_budget_ms(None), None, "unset ⇒ unbounded");
    assert_eq!(parse_budget_ms(Some("0".into())), None, "0 ⇒ unbounded");
    assert_eq!(parse_budget_ms(Some("  250 ".into())), Some(250), "trimmed");
    assert_eq!(parse_budget_ms(Some("nonsense".into())), None);
}

#[test]
fn stop_reasons_are_distinct() {
    assert_ne!(
        StopReason::TimeBudget { scope: "run" },
        StopReason::TimeBudget { scope: "property" }
    );
    assert_ne!(StopReason::Memory, StopReason::Cancelled);
}

#[test]
fn any_spelling_of_zero_disables_the_defaulted_budget() {
    assert_eq!(parse_budget_ms_with_default(Some("00".into()), 900_000), None);
    assert_eq!(parse_budget_ms_with_default(Some("+0".into()), 900_000), None);
    assert_eq!(parse_budget_ms_with_default(Some(" 0\n".into()), 900_000), None);
    assert_eq!(parse_budget_ms_with_default(Some("-0".into()), 900_000), Some(900_000));
    assert_eq!(parse_budget_ms_with_default(Some("0x0".into()), 900_000), Some(900_000));
}
