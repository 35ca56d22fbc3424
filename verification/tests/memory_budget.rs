use mununu_core::memory_budget::{
    ceiling_provenance, check_memory_budget_bytes, check_memory_budget_reading,
    check_process_memory_budget, detect_cgroup_memory_limit_bytes, parse_cgroup_limit,
    read_memory_budget_env, read_process_rss_bytes, resolve_memory_budget, BudgetSource,
    MemoryBudgetExceeded, MEMORY_BUDGET_ENV,
};

const GIB: u64 = 1024 * 1024 * 1024;

#[test]
fn strictly_under_ceiling_is_ok() {
    assert!(check_memory_budget_bytes(99, 100).is_ok());
}

#[test]
fn at_ceiling_is_ok_boundary_case() {
    assert!(check_memory_budget_bytes(100, 100).is_ok());
}

#[test]
fn strictly_over_ceiling_is_err_with_expected_fields() {
    let err = check_memory_budget_bytes(101, 100).expect_err("should abstain");
    assert_eq!(err.current_rss_bytes, 101);
    assert_eq!(err.limit_bytes, 100);
}

#[test]
fn err_display_names_env_var_and_both_numbers() {
    let err = MemoryBudgetExceeded {
        current_rss_bytes: 1_500_000_000,
        limit_bytes: 1_000_000_000,
    };
    let s = err.to_display_string();
    assert!(
        s.contains("1500000000") && s.contains("1000000000"),
        "display should name both numbers: {s}"
    );
    assert!(
        s.contains(MEMORY_BUDGET_ENV),
        "display should name the env var for consumer diagnostics: {s}"
    );
}

#[test]
fn the_display_string_is_exact() {
    let err = MemoryBudgetExceeded {
        current_rss_bytes: 101,
        limit_bytes: 100,
    };
    assert_eq!(
        err.to_display_string(),
        "memory budget exceeded: 101 B in use, ceiling 100 B (MUNUNU_MAX_PROCESS_MEMORY_BYTES=100)"
    );
}

#[test]
fn rss_reader_returns_a_positive_value_when_platform_supports_it() {
    let rss = read_process_rss_bytes().expect("memory_stats supported on this platform");
    assert!(rss > 0, "process RSS should be positive; got {rss}");
}

#[test]
fn explicit_env_value_wins_over_a_detected_limit() {
    let (ceiling, src) = resolve_memory_budget(Some("1000"), Some(8 * GIB));
    assert_eq!(
        ceiling,
        Some(1000),
        "an explicit ceiling is honoured verbatim"
    );
    assert_eq!(src, BudgetSource::ExplicitEnv);
}

#[test]
fn explicit_zero_disables_even_when_a_limit_is_detected() {
    let (ceiling, src) = resolve_memory_budget(Some("0"), Some(8 * GIB));
    assert_eq!(ceiling, None, "`0` means disabled, not `auto`");
    assert_eq!(src, BudgetSource::Disabled);
}

#[test]
fn unset_with_a_detected_limit_auto_derives_the_ceiling() {
    let (ceiling, src) = resolve_memory_budget(None, Some(10 * GIB));
    assert_eq!(ceiling, Some(8 * GIB), "80% of a 10 GiB container limit");
    assert_eq!(src, BudgetSource::AutoDetected);
}

#[test]
fn unset_with_no_detected_limit_stays_disabled() {
    let (ceiling, src) = resolve_memory_budget(None, None);
    assert_eq!(ceiling, None);
    assert_eq!(src, BudgetSource::Disabled);
}

#[test]
fn a_non_numeric_value_disables_rather_than_auto_detecting() {
    let (ceiling, src) = resolve_memory_budget(Some("lots"), Some(8 * GIB));
    assert_eq!(ceiling, None);
    assert_eq!(src, BudgetSource::Disabled);
}

#[test]
fn a_limit_too_small_to_scale_disables_instead_of_abstaining_immediately() {
    let (ceiling, src) = resolve_memory_budget(None, Some(1));
    assert_eq!(ceiling, None);
    assert_eq!(src, BudgetSource::Disabled);
}

#[test]
fn an_explicit_value_is_trimmed_and_may_carry_a_plus_sign() {
    assert_eq!(
        resolve_memory_budget(Some(" +2048\n"), None),
        (Some(2048), BudgetSource::ExplicitEnv)
    );
    assert_eq!(
        resolve_memory_budget(Some("-5"), Some(GIB)),
        (None, BudgetSource::Disabled)
    );
    assert_eq!(
        resolve_memory_budget(Some("18446744073709551616"), None),
        (None, BudgetSource::Disabled),
        "a value past u64 does not parse"
    );
}

#[test]
fn the_auto_ceiling_rounds_down() {
    assert_eq!(resolve_memory_budget(None, Some(7)).0, Some(5));
    assert_eq!(resolve_memory_budget(None, Some(2)).0, Some(1));
    assert_eq!(
        resolve_memory_budget(None, Some(u64::MAX)).0,
        Some(u64::MAX / 5 * 4)
    );
}

#[test]
fn an_auto_ceiling_is_never_attributed_to_the_env_var() {
    for src in [
        BudgetSource::ExplicitEnv,
        BudgetSource::AutoDetected,
        BudgetSource::Disabled,
    ] {
        let phrase = ceiling_provenance(src);
        if src == BudgetSource::AutoDetected {
            assert!(
                phrase.contains("auto-derived") && phrase.contains("=0"),
                "an auto ceiling must say it is auto AND offer the escape hatch"
            );
            assert!(
                !phrase.contains("set explicitly"),
                "an auto ceiling must not claim the operator set it"
            );
        }
        match src {
            BudgetSource::ExplicitEnv => assert!(phrase.contains("set explicitly")),
            BudgetSource::AutoDetected => assert!(phrase.contains("auto-derived")),
            BudgetSource::Disabled => assert!(phrase.contains("no ceiling")),
        }
    }
}

#[test]
fn cgroup_v2_max_is_not_a_limit() {
    assert_eq!(
        parse_cgroup_limit("max\n"),
        None,
        "`max` means unconstrained"
    );
}

#[test]
fn cgroup_v1_unlimited_sentinels_are_not_limits() {
    assert_eq!(parse_cgroup_limit("9223372036854771712"), None);
    assert_eq!(parse_cgroup_limit("18446744073709551615"), None);
}

#[test]
fn a_real_cgroup_limit_parses() {
    assert_eq!(parse_cgroup_limit(" 2147483648 \n"), Some(2 * GIB));
}

#[test]
fn cgroup_zero_and_garbage_are_not_limits() {
    assert_eq!(parse_cgroup_limit("0"), None);
    assert_eq!(parse_cgroup_limit(""), None);
    assert_eq!(parse_cgroup_limit("kittens"), None);
}

#[test]
fn the_auto_ceiling_never_exceeds_the_detected_limit() {
    for limit in [
        2 * GIB,
        4 * GIB,
        15 * GIB,
        64 * GIB,
        3_221_225_472,
    ] {
        let (ceiling, src) = resolve_memory_budget(None, Some(limit));
        let c = ceiling.expect("a real limit yields a ceiling");
        assert!(
            c < limit,
            "ceiling {c} must stay under the detected limit {limit}"
        );
        assert_eq!(src, BudgetSource::AutoDetected);
    }
}

#[test]
fn the_v2_file_wins_and_v1_is_the_fallback() {
    assert_eq!(
        detect_cgroup_memory_limit_bytes(Some("1048576\n"), Some("2097152\n")),
        Some(1_048_576)
    );
    assert_eq!(
        detect_cgroup_memory_limit_bytes(Some("max\n"), Some("2097152\n")),
        Some(2_097_152)
    );
    assert_eq!(
        detect_cgroup_memory_limit_bytes(None, Some("9223372036854771712\n")),
        None
    );
    assert_eq!(detect_cgroup_memory_limit_bytes(None, None), None);
}

#[test]
fn the_env_reading_agrees_with_the_resolution() {
    assert_eq!(read_memory_budget_env(Some("0"), Some(GIB)), None);
    assert_eq!(read_memory_budget_env(Some("not_a_number"), None), None);
    assert_eq!(
        read_memory_budget_env(Some("1073741824"), None),
        Some(1_073_741_824)
    );
    assert_eq!(
        read_memory_budget_env(None, Some(10 * GIB)),
        resolve_memory_budget(None, Some(10 * GIB)).0
    );
}

#[test]
fn a_reading_is_checked_only_when_there_is_a_ceiling_and_a_reading() {
    assert_eq!(check_memory_budget_reading(None, Some(10)), Ok(()));
    assert_eq!(check_memory_budget_reading(Some(5), None), Ok(()));
    assert_eq!(check_memory_budget_reading(Some(10), Some(10)), Ok(()));
    assert_eq!(
        check_memory_budget_reading(Some(10), Some(11)),
        Err(MemoryBudgetExceeded {
            current_rss_bytes: 11,
            limit_bytes: 10
        })
    );
}

#[test]
fn the_process_check_passes_without_a_ceiling_and_fails_under_a_tiny_one() {
    assert_eq!(check_process_memory_budget(None), Ok(()));
    if read_process_rss_bytes().is_some() {
        let err = check_process_memory_budget(Some(1)).expect_err("1 byte is below any RSS");
        assert_eq!(err.limit_bytes, 1);
        assert!(err.current_rss_bytes > 1);
    }
}
