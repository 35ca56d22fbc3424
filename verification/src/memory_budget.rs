//! A self-imposed process-memory ceiling.
//!
//! The ceiling is polled at coarse checkpoints; when the resident set size strictly exceeds it,
//! the current and remaining properties abstain instead of the whole process dying on a failed
//! allocation. The ceiling comes from `MUNUNU_MAX_PROCESS_MEMORY_BYTES` when that is set (`0`
//! or an unparseable value disables it), and otherwise is four fifths of a detected container
//! memory limit, or absent when no limit is detected.

use vstd::prelude::*;
use crate::text::{
    chars_eq_str, decimal, decimal_chars, extend_chars, extend_str, parse_u64, parse_u64_chars,
    string_from_chars, trim, trim_str,
};

verus! {

broadcast use vstd::string::group_string_axioms;

/// The environment variable that configures the process-memory ceiling, in bytes.
pub const MEMORY_BUDGET_ENV: &'static str = "MUNUNU_MAX_PROCESS_MEMORY_BYTES";

/// The auto ceiling is `DEFAULT_LIMIT_NUMERATOR / DEFAULT_LIMIT_DENOMINATOR` of a detected
/// container limit, rounded down: the remaining fifth is headroom for allocator overhead and
/// memory the coarse poll cannot see.
pub const DEFAULT_LIMIT_NUMERATOR: u64 = 4;

pub const DEFAULT_LIMIT_DENOMINATOR: u64 = 5;

/// Cgroup limits at or above 2^60 bytes are the controller's way of saying "unlimited".
pub const CGROUP_UNLIMITED_FLOOR: u64 = 0x1000_0000_0000_0000;

/// Where an active ceiling came from.
#[derive(Debug, Clone, Copy, PartialEq, Eq, Structural)]
pub enum BudgetSource {
    /// The environment variable named this ceiling explicitly.
    ExplicitEnv,
    /// Derived from a detected cgroup limit.
    AutoDetected,
    /// No ceiling: the variable was `0` or unparseable, or no container limit was detected.
    Disabled,
}

/// The process RSS strictly exceeded the ceiling; carries both numbers.
#[derive(Debug, Clone, Copy, PartialEq, Eq, Structural)]
pub struct MemoryBudgetExceeded {
    /// The process's resident set size at the check point, in bytes.
    pub current_rss_bytes: u64,
    /// The ceiling, in bytes.
    pub limit_bytes: u64,
}

/// The human-readable rendering of an exceeded budget.
pub open spec fn exceeded_message(current: u64, limit: u64) -> Seq<char> {
    "memory budget exceeded: "@ + decimal(current as nat) + " B in use, ceiling "@ + decimal(
        limit as nat,
    ) + " B ("@ + MEMORY_BUDGET_ENV@ + "="@ + decimal(limit as nat) + ")"@
}

impl MemoryBudgetExceeded {
    /// The message a caller puts in an abstention note: both numbers and the variable's name.
    pub fn to_display_string(&self) -> (s: String)
        ensures
            s@ == exceeded_message(self.current_rss_bytes, self.limit_bytes),
    {
        let mut v: Vec<char> = Vec::new();
        extend_str(&mut v, "memory budget exceeded: ");
        extend_chars(&mut v, &decimal_chars(self.current_rss_bytes));
        extend_str(&mut v, " B in use, ceiling ");
        let limit = decimal_chars(self.limit_bytes);
        extend_chars(&mut v, &limit);
        extend_str(&mut v, " B (");
        extend_str(&mut v, MEMORY_BUDGET_ENV);
        extend_str(&mut v, "=");
        extend_chars(&mut v, &limit);
        extend_str(&mut v, ")");
        string_from_chars(&v)
    }
}

/// `Err` exactly when `current` strictly exceeds `limit`.
pub open spec fn budget_check(current: u64, limit: u64) -> Result<(), MemoryBudgetExceeded> {
    if current > limit {
        Err(MemoryBudgetExceeded { current_rss_bytes: current, limit_bytes: limit })
    } else {
        Ok(())
    }
}

/// Does `current` strictly exceed `limit`? Being exactly at the ceiling is still under it.
pub fn check_memory_budget_bytes(current: u64, limit: u64) -> (r: Result<(), MemoryBudgetExceeded>)
    ensures
        r == budget_check(current, limit),
{
    if current > limit {
        Err(MemoryBudgetExceeded { current_rss_bytes: current, limit_bytes: limit })
    } else {
        Ok(())
    }
}

pub open spec fn str_view(raw: Option<&str>) -> Option<Seq<char>> {
    match raw {
        Some(s) => Some(s@),
        None => None,
    }
}

/// Four fifths of `limit`, rounded down.
pub open spec fn auto_ceiling(limit: u64) -> nat {
    (limit as nat * DEFAULT_LIMIT_NUMERATOR as nat / DEFAULT_LIMIT_DENOMINATOR as nat) as nat
}

/// The ceiling and its source, from the raw variable and a detected container limit:
/// an explicit positive number wins; an explicit `0` or unparseable value disables; when the
/// variable is unset, four fifths of a detected limit (disabled when that rounds to zero or
/// nothing was detected).
pub open spec fn resolve_spec(raw: Option<Seq<char>>, detected: Option<u64>) -> (
    Option<u64>,
    BudgetSource,
) {
    match raw {
        Some(v) => match parse_u64(trim(v)) {
            Some(n) => if n == 0 {
                (None, BudgetSource::Disabled)
            } else {
                (Some(n), BudgetSource::ExplicitEnv)
            },
            None => (None, BudgetSource::Disabled),
        },
        None => match detected {
            Some(limit) => if auto_ceiling(limit) == 0 {
                (None, BudgetSource::Disabled)
            } else {
                (Some(auto_ceiling(limit) as u64), BudgetSource::AutoDetected)
            },
            None => (None, BudgetSource::Disabled),
        },
    }
}

fn scaled_limit(limit: u64) -> (c: u64)
    ensures
        c == auto_ceiling(limit),
{
    let q = limit / 5;
    let r = limit % 5;
    proof {
        assert(limit as nat * 4 / 5 == q * 4 + r * 4 / 5) by (nonlinear_arith)
            requires
                q == limit / 5,
                r == limit % 5,
        ;
        assert(q * 4 <= limit) by (nonlinear_arith)
            requires
                q == limit / 5,
        ;
    }
    q * 4 + r * 4 / 5
}

/// Decide the effective ceiling from the raw variable and a detected container limit.
pub fn resolve_memory_budget(raw: Option<&str>, detected_limit: Option<u64>) -> (r: (
    Option<u64>,
    BudgetSource,
))
    ensures
        r == resolve_spec(str_view(raw), detected_limit),
{
    match raw {
        Some(v) => {
            let t = trim_str(v);
            match parse_u64_chars(&t) {
                Some(n) => if n == 0 {
                    (None, BudgetSource::Disabled)
                } else {
                    (Some(n), BudgetSource::ExplicitEnv)
                },
                None => (None, BudgetSource::Disabled),
            }
        },
        None => match detected_limit {
            Some(limit) => {
                let ceiling = scaled_limit(limit);
                if ceiling == 0 {
                    (None, BudgetSource::Disabled)
                } else {
                    (Some(ceiling), BudgetSource::AutoDetected)
                }
            },
            None => (None, BudgetSource::Disabled),
        },
    }
}

/// The limit a cgroup limit file states: `None` for `max`, unparseable text, zero, or a value
/// at or above 2^60 (an "unlimited" sentinel).
pub open spec fn cgroup_limit_spec(raw: Seq<char>) -> Option<u64> {
    let t = trim(raw);
    if t == "max"@ {
        None
    } else {
        match parse_u64(t) {
            Some(n) => if n == 0 || n >= CGROUP_UNLIMITED_FLOOR {
                None
            } else {
                Some(n)
            },
            None => None,
        }
    }
}

/// Parse one cgroup limit file's contents.
pub fn parse_cgroup_limit(raw: &str) -> (r: Option<u64>)
    ensures
        r == cgroup_limit_spec(raw@),
{
    let t = trim_str(raw);
    if chars_eq_str(&t, "max") {
        return None;
    }
    match parse_u64_chars(&t) {
        Some(n) => if n == 0 || n >= CGROUP_UNLIMITED_FLOOR {
            None
        } else {
            Some(n)
        },
        None => None,
    }
}

/// The container memory limit, from the contents of the cgroup v2 limit file and then the
/// v1 one (`None` for a file that could not be read): the first that states a real limit wins.
pub open spec fn detected_limit_spec(v2: Option<Seq<char>>, v1: Option<Seq<char>>) -> Option<u64> {
    match v2 {
        Some(raw) if cgroup_limit_spec(raw) is Some => cgroup_limit_spec(raw),
        _ => match v1 {
            Some(raw) => cgroup_limit_spec(raw),
            None => None,
        },
    }
}

/// The container memory limit in bytes, given what the cgroup v2 file
/// (`/sys/fs/cgroup/memory.max`) and the v1 file
/// (`/sys/fs/cgroup/memory/memory.limit_in_bytes`) hold.
pub fn detect_cgroup_memory_limit_bytes(v2_raw: Option<&str>, v1_raw: Option<&str>) -> (r: Option<
    u64,
>)
    ensures
        r == detected_limit_spec(str_view(v2_raw), str_view(v1_raw)),
{
    if let Some(raw) = v2_raw {
        if let Some(n) = parse_cgroup_limit(raw) {
            return Some(n);
        }
    }
    if let Some(raw) = v1_raw {
        if let Some(n) = parse_cgroup_limit(raw) {
            return Some(n);
        }
    }
    None
}

/// The effective ceiling (`None`: no ceiling), from the raw variable and a detected limit.
pub fn read_memory_budget_env(raw: Option<&str>, detected_limit: Option<u64>) -> (r: Option<u64>)
    ensures
        r == resolve_spec(str_view(raw), detected_limit).0,
{
    resolve_memory_budget(raw, detected_limit).0
}

pub open spec fn provenance_phrase(source: BudgetSource) -> Seq<char> {
    match source {
        BudgetSource::ExplicitEnv => "set explicitly via `MUNUNU_MAX_PROCESS_MEMORY_BYTES`"@,
        BudgetSource::AutoDetected =>
            "auto-derived as 80% of the detected container memory limit — set `MUNUNU_MAX_PROCESS_MEMORY_BYTES=0` to disable, or an explicit byte count to override"@,
        BudgetSource::Disabled => "no ceiling configured"@,
    }
}

/// A phrase naming where the active ceiling came from, for a user-facing note. An auto ceiling
/// says it is auto and how to turn it off, rather than naming a variable nobody set.
pub fn ceiling_provenance(source: BudgetSource) -> (s: &'static str)
    ensures
        s@ == provenance_phrase(source),
{
    match source {
        BudgetSource::ExplicitEnv => "set explicitly via `MUNUNU_MAX_PROCESS_MEMORY_BYTES`",
        BudgetSource::AutoDetected =>
            "auto-derived as 80% of the detected container memory limit — set `MUNUNU_MAX_PROCESS_MEMORY_BYTES=0` to disable, or an explicit byte count to override",
        BudgetSource::Disabled => "no ceiling configured",
    }
}

/// Whether `needle` occurs somewhere in `hay`.
pub open spec fn mentions(hay: Seq<char>, needle: Seq<char>) -> bool {
    exists|i: int|
        0 <= i && i + needle.len() <= hay.len() && #[trigger] hay.subrange(i, i + needle.len())
            == needle
}

/// The provenance note never attributes a ceiling to a variable nobody set: an auto ceiling
/// says it is auto-derived, offers the `=0` escape hatch and never says "set explicitly"; an
/// explicit one says it was set explicitly; no ceiling says so.
pub proof fn lemma_provenance_is_honest(source: BudgetSource)
    ensures
        source == BudgetSource::AutoDetected ==> mentions(provenance_phrase(source), "auto-derived"@)
            && mentions(provenance_phrase(source), "=0"@) && !mentions(
            provenance_phrase(source),
            "set explicitly"@,
        ),
        source == BudgetSource::ExplicitEnv ==> mentions(
            provenance_phrase(source),
            "set explicitly"@,
        ),
        source == BudgetSource::Disabled ==> mentions(provenance_phrase(source), "no ceiling"@),
{
    reveal_strlit("set explicitly via `MUNUNU_MAX_PROCESS_MEMORY_BYTES`");
    reveal_strlit(
        "auto-derived as 80% of the detected container memory limit — set `MUNUNU_MAX_PROCESS_MEMORY_BYTES=0` to disable, or an explicit byte count to override",
    );
    reveal_strlit("no ceiling configured");
    reveal_strlit("auto-derived");
    reveal_strlit("=0");
    reveal_strlit("set explicitly");
    reveal_strlit("no ceiling");
    let p = provenance_phrase(source);
    match source {
        BudgetSource::AutoDetected => {
            assert(p.subrange(0int, 0int + "auto-derived"@.len()) =~= "auto-derived"@);
            assert(mentions(p, "auto-derived"@));
            assert(p.subrange(97int, 97int + "=0"@.len()) =~= "=0"@);
            assert(mentions(p, "=0"@));
            let needle = "set explicitly"@;
            assert forall|i: int| 0 <= i && i + needle.len() <= p.len() implies #[trigger] p.subrange(
                i,
                i + needle.len(),
            ) != needle by {
                if p.subrange(i, i + needle.len()) == needle {
                    assert(p[i + 5] == needle[5]);
                    assert(p[i] == needle[0]);
                    assert(p[i + 5] == 'x');
                    assert(i + 5 == 120);
                    assert(false);
                }
            }
            assert(!mentions(p, needle));
        },
        BudgetSource::ExplicitEnv => {
            assert(p.subrange(0int, 0int + "set explicitly"@.len()) =~= "set explicitly"@);
            assert(mentions(p, "set explicitly"@));
        },
        BudgetSource::Disabled => {
            assert(p.subrange(0int, 0int + "no ceiling"@.len()) =~= "no ceiling"@);
            assert(mentions(p, "no ceiling"@));
        },
    }
}

/// `memory_stats::memory_stats`: the resident set size of this process in bytes, or `None`
/// where the platform's reader is unavailable. The value is a reading of the running process,
/// so nothing is promised of it.
#[verifier::external_body]
pub fn read_process_rss_bytes() -> (r: Option<u64>) {
    memory_stats::memory_stats().map(|s| s.physical_mem as u64)
}

/// The budget check against one RSS reading: no ceiling or no reading passes (fail-open);
/// otherwise the reading is checked against the ceiling.
pub open spec fn reading_check(limit: Option<u64>, rss: Option<u64>) -> Result<
    (),
    MemoryBudgetExceeded,
> {
    match (limit, rss) {
        (Some(l), Some(c)) => budget_check(c, l),
        _ => Ok(()),
    }
}

/// Check one RSS reading against the ceiling.
pub fn check_memory_budget_reading(limit: Option<u64>, rss: Option<u64>) -> (r: Result<
    (),
    MemoryBudgetExceeded,
>)
    ensures
        r == reading_check(limit, rss),
{
    let Some(limit) = limit else {
        return Ok(());
    };
    let Some(current) = rss else {
        return Ok(());
    };
    check_memory_budget_bytes(current, limit)
}

/// The full check: reads this process's RSS and checks it against `limit`. Passes when there
/// is no ceiling or no reading; an `Err` always carries the ceiling and a reading above it.
/// With a ceiling, which of the two comes back rests on the live RSS reading, of which nothing
/// is known; `check_memory_budget_reading` states the rule for every reading.
pub fn check_process_memory_budget(limit: Option<u64>) -> (r: Result<(), MemoryBudgetExceeded>)
    ensures
        limit is None ==> r is Ok,
        r matches Err(e) ==> limit == Some(e.limit_bytes) && e.current_rss_bytes
            > e.limit_bytes,
{
    if limit.is_none() {
        return Ok(());
    }
    let rss = read_process_rss_bytes();
    check_memory_budget_reading(limit, rss)
}

/// The check fails exactly when the reading is strictly above the ceiling (at the ceiling is
/// still under it), and the failure carries both numbers unchanged.
pub proof fn lemma_over_the_ceiling_exactly(current: u64, limit: u64)
    ensures
        budget_check(current, limit) is Err <==> current > limit,
        budget_check(current, limit) matches Err(e) ==> e.current_rss_bytes == current
            && e.limit_bytes == limit,
        reading_check(None, Some(current)) is Ok,
        reading_check(Some(limit), None) is Ok,
        reading_check(Some(limit), Some(current)) is Err <==> current > limit,
{
}

/// With the variable unset, the auto ceiling is four fifths of the detected limit rounded
/// down: `5c <= 4d < 5c + 5`; a detected limit of 0 or 1 bytes scales to nothing and leaves
/// the ceiling disabled, any larger one gives a ceiling.
pub proof fn lemma_auto_ceiling_is_four_fifths(detected: u64)
    ensures
        resolve_spec(None, Some(detected)).0 matches Some(c) ==> 5 * (c as int) <= 4 * (detected as int)
            && 4 * (detected as int) < 5 * (c as int) + 5,
        resolve_spec(None, Some(detected)).0 is None <==> detected <= 1,
        resolve_spec(None, None) == (None::<u64>, BudgetSource::Disabled),
{
    let d = detected as int;
    let c = auto_ceiling(detected) as int;
    assert(c == (4 * d) / 5);
    assert(5 * c <= 4 * d && 4 * d < 5 * c + 5) by (nonlinear_arith)
        requires
            c == (4 * d) / 5,
            d >= 0,
    ;
    assert(c <= d) by (nonlinear_arith)
        requires
            c == (4 * d) / 5,
            d >= 0,
    ;
}

/// An explicit setting that reads as a positive number is that ceiling, set explicitly; one
/// that reads as 0, or does not read as a number at all, disables the ceiling.
pub proof fn lemma_explicit_setting(raw: Seq<char>, detected: Option<u64>)
    ensures
        (parse_u64(trim(raw)) matches Some(n) && n > 0) ==> resolve_spec(Some(raw), detected) == (
            parse_u64(trim(raw)),
            BudgetSource::ExplicitEnv,
        ),
        (parse_u64(trim(raw)) is None || parse_u64(trim(raw)) == Some(0u64)) ==> resolve_spec(
            Some(raw),
            detected,
        ) == (None::<u64>, BudgetSource::Disabled),
{
}

/// An auto-derived ceiling never exceeds the limit it came from; it stays strictly below it,
/// so it can fire before the container's own limit does.
pub proof fn lemma_auto_ceiling_below_limit(detected: u64)
    ensures
        resolve_spec(None, Some(detected)).0 matches Some(c) ==> c < detected,
        resolve_spec(None, Some(detected)).1 == BudgetSource::AutoDetected <==> resolve_spec(
            None,
            Some(detected),
        ).0 is Some,
{
    assert(detected as nat * 4 / 5 <= detected) by (nonlinear_arith);
    if detected > 0 {
        assert(detected as nat * 4 / 5 < detected) by (nonlinear_arith)
            requires
                detected > 0,
        ;
    }
}

/// An explicit value wins over any detected limit, and an explicit `0` disables the ceiling
/// however large the detected limit is.
pub proof fn lemma_explicit_value_ignores_detection(raw: Seq<char>, a: Option<u64>, b: Option<u64>)
    ensures
        resolve_spec(Some(raw), a) == resolve_spec(Some(raw), b),
        parse_u64(trim(raw)) == Some(0u64) ==> resolve_spec(Some(raw), a) == (
            None::<u64>,
            BudgetSource::Disabled,
        ),
{
}

/// A ceiling is present exactly when its source is not `Disabled`, and an explicit ceiling is
/// never zero.
pub proof fn lemma_ceiling_matches_source(raw: Option<Seq<char>>, detected: Option<u64>)
    ensures
        (resolve_spec(raw, detected).0 is Some) <==> (resolve_spec(raw, detected).1
            != BudgetSource::Disabled),
        resolve_spec(raw, detected).0 matches Some(c) ==> c > 0,
{
}

} // verus!
