//! A cooperative wall-clock budget for a verification run.
//!
//! A budget is a deadline plus a shared cancellation flag. Deadlines are kept as nanoseconds
//! after a monotonic origin instant, so that the decisions (which deadline is earlier, whether
//! it has passed, how much is left) are integer arithmetic; only reading the clock and the flag
//! is left to the platform.

use vstd::prelude::*;
use std::sync::Arc;
use std::sync::atomic::AtomicBool;
use std::time::{Duration, Instant};
use crate::text::{parse_u64, parse_u64_chars, str_chars, trim, trim_chars};

verus! {

broadcast use vstd::string::group_string_axioms;

#[verifier::external_type_specification]
#[verifier::external_body]
pub struct ExInstant(std::time::Instant);

/// Per-property wall-clock budget. Unset means the default.
pub const PROPERTY_BUDGET_ENV: &'static str = "MUNUNU_PROPERTY_BUDGET_MS";

/// Whole-run wall-clock budget. Unset means the default.
pub const RUN_BUDGET_ENV: &'static str = "MUNUNU_VERIFY_BUDGET_MS";

/// Default per-property budget: 15 minutes, about eighteen times the longest property
/// measured over the real-design corpus.
pub const DEFAULT_PROPERTY_BUDGET_MS: u64 = 15 * 60 * 1000;

/// Default whole-run budget: one hour.
pub const DEFAULT_RUN_BUDGET_MS: u64 = 60 * 60 * 1000;

pub const NANOS_PER_MILLI: u128 = 1_000_000;

/// The largest number of nanoseconds a `std::time::Duration` can hold
/// (`u64::MAX` seconds plus 999 999 999 nanoseconds).
pub const MAX_DURATION_NANOS: u128 = 18_446_744_073_709_551_615 * 1_000_000_000 + 999_999_999;

/// `std::time::Instant::now`: the current instant of the monotonic clock. Nothing is
/// promised of the value: it is the time at the call.
#[verifier::external_body]
fn clock_now() -> (t: Instant) {
    Instant::now()
}

/// `std::time::Instant::elapsed`: the time since `origin` on the monotonic clock (zero, not a
/// panic, if the clock reads earlier). The value depends on when the call is made, so nothing
/// is promised of it.
#[verifier::external_body]
fn elapsed_since(origin: &Instant) -> (d: Duration) {
    origin.elapsed()
}

/// `std::time::Duration::as_nanos`: the whole length of `d` in nanoseconds, which is never
/// more than a `Duration` can hold. A `Duration` is opaque here, so nothing more is stated.
#[verifier::external_body]
fn duration_nanos(d: &Duration) -> (n: u128)
    ensures
        n <= MAX_DURATION_NANOS,
{
    d.as_nanos()
}

/// The time since `origin` on the monotonic clock, in nanoseconds.
fn nanos_since(origin: &Instant) -> (n: u128)
    ensures
        n <= MAX_DURATION_NANOS,
{
    let d = elapsed_since(origin);
    duration_nanos(&d)
}

/// `std::sync::Arc::clone`: a second handle on the same allocation.
#[verifier::external_body]
fn share_flag(flag: &Arc<AtomicBool>) -> (r: Arc<AtomicBool>)
    ensures
        r == *flag,
{
    Arc::clone(flag)
}

/// A deadline plus a cancellation flag. Cloning shares the flag.
#[derive(Debug)]
pub struct Budget {
    origin: Instant,
    deadline_ns: Option<u128>,
    cancel: Arc<AtomicBool>,
}

/// Milliseconds as nanoseconds.
pub open spec fn ms_to_ns(ms: u64) -> u128 {
    (ms as nat * NANOS_PER_MILLI as nat) as u128
}

/// Whether a budget has run out: cancelled, or the clock at `elapsed_ns` has reached the
/// deadline.
pub open spec fn expired_spec(cancelled: bool, deadline_ns: Option<u128>, elapsed_ns: u128) -> bool {
    cancelled || (deadline_ns matches Some(d) && elapsed_ns >= d)
}

/// Milliseconds left before the deadline at clock `elapsed_ns`, rounded down, saturating at 0
/// and at `u64::MAX`; `None` for no deadline.
pub open spec fn remaining_spec(deadline_ns: Option<u128>, elapsed_ns: u128) -> Option<u64> {
    match deadline_ns {
        Some(d) => {
            let left: int = if elapsed_ns >= d {
                0
            } else {
                (d - elapsed_ns) / (NANOS_PER_MILLI as int)
            };
            Some(if left > u64::MAX {
                u64::MAX
            } else {
                left as u64
            })
        },
        None => None,
    }
}

/// The earlier of two optional deadlines; an absent deadline is no constraint.
pub open spec fn earlier(a: Option<u128>, b: Option<u128>) -> Option<u128> {
    match (a, b) {
        (Some(x), Some(y)) => Some(if x <= y {
            x
        } else {
            y
        }),
        (Some(x), None) => Some(x),
        (None, y) => y,
    }
}

/// Has a budget with this flag state and deadline run out at clock `elapsed_ns`?
pub fn expired_at(cancelled: bool, deadline_ns: Option<u128>, elapsed_ns: u128) -> (r: bool)
    ensures
        r == expired_spec(cancelled, deadline_ns, elapsed_ns),
{
    cancelled || match deadline_ns {
        Some(d) => elapsed_ns >= d,
        None => false,
    }
}

/// Milliseconds left before `deadline_ns` at clock `elapsed_ns`.
pub fn remaining_at(deadline_ns: Option<u128>, elapsed_ns: u128) -> (r: Option<u64>)
    ensures
        r == remaining_spec(deadline_ns, elapsed_ns),
{
    match deadline_ns {
        Some(d) => {
            let left: u128 = if elapsed_ns >= d {
                0
            } else {
                (d - elapsed_ns) / NANOS_PER_MILLI
            };
            Some(
                if left > u64::MAX as u128 {
                    u64::MAX
                } else {
                    left as u64
                },
            )
        },
        None => None,
    }
}

/// The deadline of a child budget made at clock `elapsed_ns` on its parent's clock: the earlier
/// of the parent's and `ms` after `elapsed_ns`; the parent's own when `ms` is `None`.
pub open spec fn child_deadline_spec(outer_deadline: Option<u128>, ms: Option<u64>, elapsed_ns: u128) -> Option<u128> {
    earlier(
        outer_deadline,
        match ms {
            Some(m) => Some((elapsed_ns + ms_to_ns(m)) as u128),
            None => None,
        },
    )
}

/// The deadline of a child budget made at clock `elapsed_ns` on its parent's clock.
pub fn child_deadline_at(outer_deadline: Option<u128>, ms: Option<u64>, elapsed_ns: u128) -> (r: Option<u128>)
    requires
        elapsed_ns <= MAX_DURATION_NANOS,
    ensures
        r == child_deadline_spec(outer_deadline, ms, elapsed_ns),
{
    assert(NANOS_PER_MILLI * (u64::MAX as u128) + MAX_DURATION_NANOS <= u128::MAX);
    let own: Option<u128> = match ms {
        Some(m) => Some(elapsed_ns + m as u128 * NANOS_PER_MILLI),
        None => None,
    };
    earlier_deadline(outer_deadline, own)
}

fn earlier_deadline(a: Option<u128>, b: Option<u128>) -> (r: Option<u128>)
    ensures
        r == earlier(a, b),
{
    match (a, b) {
        (Some(x), Some(y)) => Some(
            if x <= y {
                x
            } else {
                y
            },
        ),
        (Some(x), None) => Some(x),
        (None, y) => y,
    }
}

impl Budget {
    /// The deadline, in nanoseconds after the origin; `None` for an unbounded budget.
    pub closed spec fn deadline(&self) -> Option<u128> {
        self.deadline_ns
    }

    /// The instant the deadline is measured from.
    pub closed spec fn origin(&self) -> Instant {
        self.origin
    }

    /// The cancellation flag this budget shares with its parents and children.
    pub closed spec fn flag(&self) -> Arc<AtomicBool> {
        self.cancel
    }

    /// No deadline: the default everywhere until a budget is configured.
    pub fn unbounded() -> (b: Self)
        ensures
            b.deadline() is None,
    {
        Budget { origin: clock_now(), deadline_ns: None, cancel: Arc::new(AtomicBool::new(false)) }
    }

    /// A budget expiring `ms` milliseconds from now.
    pub fn with_ms(ms: u64) -> (b: Self)
        ensures
            b.deadline() == Some(ms_to_ns(ms)),
    {
        Budget {
            origin: clock_now(),
            deadline_ns: Some(ms as u128 * NANOS_PER_MILLI),
            cancel: Arc::new(AtomicBool::new(false)),
        }
    }

    /// `None` gives an unbounded budget, `Some(ms)` one expiring `ms` from now.
    pub fn with_ms_opt(ms: Option<u64>) -> (b: Self)
        ensures
            b.deadline() == (match ms {
                Some(m) => Some(ms_to_ns(m)),
                None => None,
            }),
    {
        match ms {
            Some(ms) => Self::with_ms(ms),
            None => Self::unbounded(),
        }
    }

    /// A child budget that can never outlive its parent: its deadline is the earlier of the
    /// parent's and `ms` from now, on the parent's clock. The cancel flag is shared, so
    /// cancelling the parent cancels the child.
    pub fn child(outer: &Budget, ms: Option<u64>) -> (b: Self)
        ensures
            b.origin() == outer.origin(),
            b.flag() == outer.flag(),
            exists|e: u128|
                e <= MAX_DURATION_NANOS && b.deadline() == child_deadline_spec(
                    outer.deadline(),
                    ms,
                    e,
                ),
    {
        let deadline = match ms {
            Some(_) => child_deadline_at(outer.deadline_ns, ms, nanos_since(&outer.origin)),
            None => child_deadline_at(outer.deadline_ns, ms, 0),
        };
        Budget { origin: outer.origin, deadline_ns: deadline, cancel: share_flag(&outer.cancel) }
    }

    /// Has the budget run out, or been cancelled? The answer depends on the clock and on the
    /// shared flag at the moment of the call; `expired_at` states the decision.
    pub fn expired(&self) -> (r: bool)
        ensures
            self.deadline() == Some(0u128) ==> r,
    {
        let cancelled = self.cancel.load(std::sync::atomic::Ordering::Relaxed);
        let elapsed = nanos_since(&self.origin);
        expired_at(cancelled, self.deadline_ns, elapsed)
    }

    /// Milliseconds left, saturating at 0; `None` exactly for an unbounded budget, and never
    /// more than the whole deadline.
    pub fn remaining_ms(&self) -> (r: Option<u64>)
        ensures
            (r is Some) == (self.deadline() is Some),
            r matches Some(m) ==> (m as int) * (NANOS_PER_MILLI as int) <= self.deadline()->0,
    {
        let elapsed = nanos_since(&self.origin);
        remaining_at(self.deadline_ns, elapsed)
    }

    /// Cancel this budget and every budget sharing its flag.
    pub fn cancel(&self) {
        self.cancel.store(true, std::sync::atomic::Ordering::Relaxed)
    }
}

impl Clone for Budget {
    /// The same deadline on the same clock, sharing the same flag.
    fn clone(&self) -> (b: Self)
        ensures
            b.deadline() == self.deadline(),
            b.origin() == self.origin(),
            b.flag() == self.flag(),
    {
        Budget { origin: self.origin, deadline_ns: self.deadline_ns, cancel: share_flag(&self.cancel) }
    }
}

impl Default for Budget {
    fn default() -> (b: Self)
        ensures
            b.deadline() is None,
    {
        Self::unbounded()
    }
}

/// The per-query solver timeout clamped to what is left: the smaller of `default_ms` and the
/// milliseconds remaining, and never 0 (a solver reads 0 as "no timeout", the opposite of what
/// an expired budget wants), so an expired budget gives 1 ms.
pub open spec fn clamp_spec(default_ms: u32, remaining_ms: Option<u64>) -> u32 {
    let m: int = match remaining_ms {
        Some(rem) => if (default_ms as int) <= (rem as int) {
            default_ms as int
        } else {
            rem as int
        },
        None => default_ms as int,
    };
    if m >= 1 {
        m as u32
    } else {
        1u32
    }
}

/// Clamp a per-query solver timeout to the time left in the current budget, so the last
/// query cannot overshoot the deadline by its own full timeout.
pub fn clamp_query_ms(default_ms: u32, remaining_ms: Option<u64>) -> (r: u32)
    ensures
        r == clamp_spec(default_ms, remaining_ms),
{
    let m: u32 = match remaining_ms {
        Some(rem) => if (default_ms as u64) <= rem {
            default_ms
        } else {
            rem as u32
        },
        None => default_ms,
    };
    if m >= 1 {
        m
    } else {
        1
    }
}

/// Why a run stopped early.
#[derive(Debug, Clone, PartialEq, Eq)]
pub enum StopReason {
    /// A wall-clock budget expired.
    TimeBudget { scope: &'static str },
    /// The process-RSS ceiling was exceeded.
    Memory,
    /// Explicitly cancelled.
    Cancelled,
}

pub open spec fn string_view(v: Option<String>) -> Option<Seq<char>> {
    match v {
        Some(s) => Some(s@),
        None => None,
    }
}

/// The defaulted ladder: unset gives the default, `0` (any spelling that parses to zero)
/// disables, a positive number is that many milliseconds, and anything unparseable falls back
/// to the default rather than to unbounded.
pub open spec fn budget_with_default_spec(v: Option<Seq<char>>, default_ms: u64) -> Option<u64> {
    match v {
        Some(s) => match parse_u64(trim(s)) {
            Some(ms) => if ms > 0 {
                Some(ms)
            } else {
                None
            },
            None => Some(default_ms),
        },
        None => Some(default_ms),
    }
}

/// The explicit-only ladder: a positive number, else `None`.
pub open spec fn budget_spec(v: Option<Seq<char>>) -> Option<u64> {
    match v {
        Some(s) => match parse_u64(trim(s)) {
            Some(ms) => if ms > 0 {
                Some(ms)
            } else {
                None
            },
            None => None,
        },
        None => None,
    }
}

/// Parse a budget variable against a default.
pub fn parse_budget_ms_with_default(v: Option<String>, default_ms: u64) -> (r: Option<u64>)
    ensures
        r == budget_with_default_spec(string_view(v), default_ms),
{
    match v {
        Some(s) => {
            let chars = str_chars(s.as_str());
            let t = trim_chars(&chars);
            match parse_u64_chars(&t) {
                Some(ms) => if ms > 0 {
                    Some(ms)
                } else {
                    None
                },
                None => Some(default_ms),
            }
        },
        None => Some(default_ms),
    }
}

/// Parse a budget variable with no default: a positive integer or `None`.
pub fn parse_budget_ms(v: Option<String>) -> (r: Option<u64>)
    ensures
        r == budget_spec(string_view(v)),
{
    match v {
        Some(s) => {
            let chars = str_chars(s.as_str());
            let t = trim_chars(&chars);
            match parse_u64_chars(&t) {
                Some(ms) => if ms > 0 {
                    Some(ms)
                } else {
                    None
                },
                None => None,
            }
        },
        None => None,
    }
}

/// A budget that has been cancelled is expired whatever its deadline; an unbounded budget that
/// has not been cancelled never expires; a zero budget is expired from the start.
pub proof fn lemma_expiry_rules(deadline_ns: Option<u128>, elapsed_ns: u128)
    ensures
        expired_spec(true, deadline_ns, elapsed_ns),
        !expired_spec(false, None, elapsed_ns),
        expired_spec(false, Some(0), elapsed_ns),
        (remaining_spec(deadline_ns, elapsed_ns) is None) == (deadline_ns is None),
{
}

/// A child's deadline is never later than its parent's, so however many children a run
/// budget has, none of them outlives it; it is never later than its own `ms` from the moment
/// it was made either, and without `ms` it is the parent's deadline unchanged.
pub proof fn lemma_child_never_outlives_parent(parent: Option<u128>, ms: Option<u64>, elapsed_ns: u128)
    requires
        elapsed_ns <= MAX_DURATION_NANOS,
    ensures
        parent matches Some(d) ==> (child_deadline_spec(parent, ms, elapsed_ns) matches Some(c)
            && c <= d),
        ms matches Some(m) ==> (child_deadline_spec(parent, ms, elapsed_ns) matches Some(c) && c
            <= elapsed_ns + ms_to_ns(m)),
        ms is None ==> child_deadline_spec(parent, ms, elapsed_ns) == parent,
        ms matches Some(m) ==> (child_deadline_spec(parent, ms, elapsed_ns) matches Some(c) && (c
            == elapsed_ns + ms_to_ns(m) || parent == Some(c))),
        ms matches Some(m) ==> (child_deadline_spec(parent, ms, elapsed_ns) matches Some(c) && ((c
            as int) == elapsed_ns + (m as int) * 1_000_000 || (parent matches Some(p) && p as int
            <= elapsed_ns + (m as int) * 1_000_000 && c == p))),
{
}

/// A child never outlives its parent at any moment: on the clock and flag the two share, a
/// parent that has run out means the child has too, and the child never has more time left.
pub proof fn lemma_child_expires_with_parent(
    parent: Option<u128>,
    ms: Option<u64>,
    made_at: u128,
    cancelled: bool,
    now: u128,
)
    requires
        made_at <= MAX_DURATION_NANOS,
    ensures
        expired_spec(cancelled, parent, now) ==> expired_spec(
            cancelled,
            child_deadline_spec(parent, ms, made_at),
            now,
        ),
        remaining_spec(parent, now) matches Some(p) ==> (remaining_spec(
            child_deadline_spec(parent, ms, made_at),
            now,
        ) matches Some(c) && c <= p),
{
    let child = child_deadline_spec(parent, ms, made_at);
    if let (Some(dp), Some(dc)) = (parent, child) {
        assert(dc <= dp);
        if now < dc {
            vstd::arithmetic::div_mod::lemma_div_is_ordered(
                dc - now,
                dp - now,
                NANOS_PER_MILLI as int,
            );
        }
    }
}

/// The milliseconds left are the nanoseconds left before the deadline, divided down to whole
/// milliseconds (capped at `u64::MAX`), and 0 once the deadline has passed; a budget expires
/// exactly when it is cancelled or the clock has reached its deadline.
pub proof fn lemma_remaining_counts_down(d: u128, elapsed_ns: u128)
    ensures
        elapsed_ns >= d ==> remaining_spec(Some(d), elapsed_ns) == Some(0u64),
        elapsed_ns < d ==> (remaining_spec(Some(d), elapsed_ns) matches Some(m) && (m as int) * 1_000_000
            <= d - elapsed_ns && (d - elapsed_ns < (m as int + 1) * 1_000_000 || m == u64::MAX)),
        expired_spec(false, Some(d), elapsed_ns) <==> elapsed_ns >= d,
        expired_spec(true, Some(d), elapsed_ns),
{
    if elapsed_ns < d {
        let left = (d - elapsed_ns) as int;
        let q = left / 1_000_000;
        assert(q * 1_000_000 <= left && left < (q + 1) * 1_000_000) by (nonlinear_arith)
            requires
                q == left / 1_000_000,
                left >= 0,
        ;
    }
}

/// A clamped query timeout is never zero, never more than the default (unless the default is
/// 0, when it is 1) and never more than the time left (unless that is 0, when it is 1); with no
/// deadline it is the default, and with more time left than the default it is the default.
pub proof fn lemma_clamp_bounds(default_ms: u32, remaining_ms: Option<u64>)
    ensures
        clamp_spec(default_ms, remaining_ms) >= 1,
        default_ms >= 1 ==> clamp_spec(default_ms, remaining_ms) <= default_ms,
        remaining_ms matches Some(rem) ==> (rem >= 1 ==> clamp_spec(default_ms, remaining_ms)
            <= rem),
        default_ms >= 1 ==> clamp_spec(default_ms, None) == default_ms,
        remaining_ms matches Some(rem) ==> (rem >= default_ms ==> clamp_spec(
            default_ms,
            remaining_ms,
        ) == (if default_ms >= 1 {
            default_ms
        } else {
            1u32
        })),
{
}

/// The defaulted ladder never yields a zero budget unless the default itself is zero: an
/// unparseable setting falls back to the default, never to unbounded, and only a setting that
/// reads as the number 0 disables; whatever disables the defaulted ladder gives no budget on
/// the explicit-only one either.
pub proof fn lemma_budget_ladder(v: Option<Seq<char>>, default_ms: u64)
    ensures
        budget_with_default_spec(v, default_ms) matches Some(ms) ==> ms > 0 || ms == default_ms,
        budget_with_default_spec(v, default_ms) is None <==> (v matches Some(s) && parse_u64(
            trim(s),
        ) == Some(0u64)),
        budget_spec(v) matches Some(ms) ==> ms > 0,
        budget_spec(v) matches Some(ms) ==> budget_with_default_spec(v, default_ms) == Some(ms),
        budget_with_default_spec(v, default_ms) is None ==> budget_spec(v) is None,
{
}

} // verus!
