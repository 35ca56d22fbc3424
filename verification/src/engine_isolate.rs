//! Reading the outcome of an engine run in a child process.
//!
//! An engine that recurses without bound inside a dependency cannot be contained in-process; in
//! a child process its death is a wait status, and the parent records "the engine died" and
//! carries on. The child prints `VERDICT holds`, `VERDICT violated` or
//! `VERDICT abstained <reason>`; this module decides what a child's output and wait status
//! mean. Spawning the child is the caller's.

use vstd::prelude::*;
use crate::text::{
    extend_chars, extend_str, lines, signed_decimal, signed_decimal_chars, split_lines, starts_with,
    starts_with_str, str_chars, string_from_chars, strip_prefixes, strip_prefixes_str, trim,
    trim_chars, chars_eq_str,
};

verus! {

broadcast use vstd::string::group_string_axioms;

/// The variable that turns isolation on.
pub const ISOLATE_ENV: &'static str = "MUNUNU_ISOLATE_ENGINES";

/// The guard that stops an isolated child from isolating again.
pub const CHILD_GUARD_ENV: &'static str = "MUNUNU_ISOLATE_CHILD";

/// The hidden verb a child is invoked with.
pub const CHILD_VERB: &'static str = "internal-engine-eval";

/// What an isolated engine run produced.
#[derive(Debug, Clone, PartialEq, Eq)]
pub enum Isolated {
    /// The child decided the property holds.
    Holds,
    /// The child decided the property is violated (no witness crosses the boundary).
    Violated,
    /// The child ran and abstained, with the engine's own reason.
    Abstained(String),
    /// The child died: a signal, or an exit with no verdict line. Names the wait status.
    Died(String),
    /// Isolation could not be attempted (no self path, spawn or temp write failed).
    Unavailable(String),
}

/// How a wait status reads: a signal is named, so a stack overflow is distinguishable from an
/// ordinary failure.
pub open spec fn status_text(signal: Option<i32>, code: Option<i32>) -> Seq<char> {
    match signal {
        Some(s) => "engine child killed by signal "@ + signed_decimal(s as int),
        None => match code {
            Some(c) => "engine child exited "@ + signed_decimal(c as int) + " with no verdict"@,
            None => "engine child ended with no status"@,
        },
    }
}

/// Render a wait status from its signal (when it was killed by one) and its exit code.
pub fn describe_status(signal: Option<i32>, code: Option<i32>) -> (s: String)
    ensures
        s@ == status_text(signal, code),
{
    let mut v: Vec<char> = Vec::new();
    match signal {
        Some(sig) => {
            extend_str(&mut v, "engine child killed by signal ");
            extend_chars(&mut v, &signed_decimal_chars(sig));
        },
        None => match code {
            Some(c) => {
                extend_str(&mut v, "engine child exited ");
                extend_chars(&mut v, &signed_decimal_chars(c));
                extend_str(&mut v, " with no verdict");
            },
            None => {
                extend_str(&mut v, "engine child ended with no status");
            },
        },
    }
    string_from_chars(&v)
}

/// The last line that starts with `VERDICT `.
pub open spec fn verdict_line(ls: Seq<Seq<char>>) -> Option<Seq<char>>
    decreases ls.len(),
{
    if ls.len() == 0 {
        None
    } else if starts_with(ls.last(), "VERDICT "@) {
        Some(ls.last())
    } else {
        verdict_line(ls.drop_last())
    }
}

/// The verdict a child printed: its last `VERDICT ` line, without the marker, trimmed.
pub open spec fn verdict_body(stdout: Seq<char>) -> Option<Seq<char>> {
    match verdict_line(lines(stdout)) {
        Some(l) => Some(trim(strip_prefixes(l, "VERDICT "@))),
        None => None,
    }
}

/// The last `n` lines (all of them when there are fewer).
pub open spec fn last_lines(ls: Seq<Seq<char>>, n: nat) -> Seq<Seq<char>> {
    if ls.len() <= n {
        ls
    } else {
        ls.skip(ls.len() - n)
    }
}

/// The lines joined with `sep` between them.
pub open spec fn join(ls: Seq<Seq<char>>, sep: Seq<char>) -> Seq<char>
    decreases ls.len(),
{
    if ls.len() == 0 {
        seq![]
    } else if ls.len() == 1 {
        ls[0]
    } else {
        join(ls.drop_last(), sep) + sep + ls.last()
    }
}

/// Why a child that printed no verdict is taken as dead: its wait status and the last three
/// lines of its stderr, so a reported failure is distinguishable from a crash.
pub open spec fn died_text(status: Seq<char>, stderr: Seq<char>) -> Seq<char> {
    status + " — stderr: "@ + join(last_lines(lines(stderr), 3), " | "@)
}

/// What a child's output means: its verdict line read as that verdict, an abstention carrying
/// the engine's reason, and anything else (no verdict line, or one that says nothing known) a
/// death.
pub open spec fn reads_as(r: Isolated, stdout: Seq<char>, stderr: Seq<char>, status: Seq<char>) -> bool {
    match verdict_body(stdout) {
        Some(b) if b == "holds"@ => r == Isolated::Holds,
        Some(b) if b == "violated"@ => r == Isolated::Violated,
        Some(b) if starts_with(b, "abstained "@) => r matches Isolated::Abstained(m) && m@
            == strip_prefixes(b, "abstained "@),
        _ => r matches Isolated::Died(m) && m@ == died_text(status, stderr),
    }
}

fn join_lines(ls: &Vec<Vec<char>>, from: usize, sep: &str) -> (r: Vec<char>)
    requires
        from <= ls@.len(),
    ensures
        r@ == join(ls@.map_values(|l: Vec<char>| l@).skip(from as int), sep@),
{
    let ghost all = ls@.map_values(|l: Vec<char>| l@);
    let ghost tail = all.skip(from as int);
    let mut r: Vec<char> = Vec::new();
    let mut i: usize = from;
    while i < ls.len()
        invariant
            from <= i <= ls@.len(),
            all == ls@.map_values(|l: Vec<char>| l@),
            tail == all.skip(from as int),
            r@ == join(tail.take(i - from), sep@),
        decreases ls@.len() - i,
    {
        let ghost before = r@;
        if i > from {
            extend_str(&mut r, sep);
        }
        extend_chars(&mut r, &ls[i]);
        proof {
            let t1 = tail.take(i + 1 - from);
            assert(t1.drop_last() =~= tail.take(i - from));
            assert(t1.last() == ls@[i as int]@);
            if i == from {
                assert(t1.len() == 1);
                assert(before =~= Seq::<char>::empty());
                assert(r@ =~= t1[0]);
            } else {
                assert(r@ =~= join(tail.take(i - from), sep@) + sep@ + t1.last());
            }
        }
        i = i + 1;
    }
    assert(tail.take(ls@.len() - from) =~= tail);
    r
}

/// Read a child's stdout, stderr and rendered wait status as an isolated outcome.
pub fn read_child_verdict(stdout: &str, stderr: &str, status: &str) -> (r: Isolated)
    ensures
        reads_as(r, stdout@, stderr@, status@),
{
    let out_chars = str_chars(stdout);
    let out_lines = split_lines(&out_chars);
    let ghost ls = out_lines@.map_values(|l: Vec<char>| l@);
    assert(ls == lines(stdout@));
    assert(ls.take(ls.len() as int) =~= ls);
    let mut k: usize = out_lines.len();
    let mut found: Option<usize> = None;
    while k > 0 && found.is_none()
        invariant
            k <= out_lines@.len(),
            ls == out_lines@.map_values(|l: Vec<char>| l@),
            found is None ==> verdict_line(ls) == verdict_line(ls.take(k as int)),
            found matches Some(j) ==> j < out_lines@.len() && verdict_line(ls) == Some(ls[j as int]),
        decreases k,
    {
        assert(ls.take(k as int).drop_last() =~= ls.take(k - 1));
        if starts_with_str(&out_lines[k - 1], "VERDICT ") {
            found = Some(k - 1);
        }
        k = k - 1;
    }
    if found.is_none() {
        assert(ls.take(0) =~= Seq::<Seq<char>>::empty());
    }
    let body: Option<Vec<char>> = match found {
        Some(j) => {
            proof {
                reveal_strlit("VERDICT ");
            }
            let stripped = strip_prefixes_str(&out_lines[j], "VERDICT ");
            Some(trim_chars(&stripped))
        },
        None => None,
    };
    assert(body matches Some(b) ==> verdict_body(stdout@) == Some(b@));
    assert(body is None ==> verdict_body(stdout@) is None);
    if let Some(b) = body {
        if chars_eq_str(&b, "holds") {
            return Isolated::Holds;
        }
        if chars_eq_str(&b, "violated") {
            return Isolated::Violated;
        }
        if starts_with_str(&b, "abstained ") {
            proof {
                reveal_strlit("abstained ");
            }
            let reason = strip_prefixes_str(&b, "abstained ");
            return Isolated::Abstained(string_from_chars(&reason));
        }
    }
    let err_chars = str_chars(stderr);
    let err_lines = split_lines(&err_chars);
    let from: usize = if err_lines.len() <= 3 {
        0
    } else {
        err_lines.len() - 3
    };
    let tail = join_lines(&err_lines, from, " | ");
    let mut msg: Vec<char> = Vec::new();
    extend_str(&mut msg, status);
    extend_str(&mut msg, " — stderr: ");
    extend_chars(&mut msg, &tail);
    proof {
        let el = err_lines@.map_values(|l: Vec<char>| l@);
        if el.len() <= 3 {
            assert(el.skip(0) =~= el);
        }
    }
    Isolated::Died(string_from_chars(&msg))
}

/// A signal is always named, whatever exit code came with it, and an exit code is named when
/// there was no signal.
pub proof fn lemma_status_names_signal_and_code(sig: i32, c1: Option<i32>, c2: Option<i32>, code: i32)
    ensures
        status_text(Some(sig), c1) == status_text(Some(sig), c2),
        starts_with(status_text(Some(sig), c1), "engine child killed by signal "@),
        starts_with(status_text(None, Some(code)), "engine child exited "@),
{
    let p = "engine child killed by signal "@;
    assert((p + signed_decimal(sig as int)).take(p.len() as int) =~= p);
    let q = "engine child exited "@;
    assert((q + signed_decimal(code as int) + " with no verdict"@).take(q.len() as int) =~= q);
}

/// What the child printed decides a verdict on its own: stderr and the wait status only shape
/// the message of a death, and a death's message always begins with the wait status.
pub proof fn lemma_only_a_death_reads_the_status(
    r: Isolated,
    stdout: Seq<char>,
    err1: Seq<char>,
    st1: Seq<char>,
    err2: Seq<char>,
    st2: Seq<char>,
)
    requires
        reads_as(r, stdout, err1, st1),
    ensures
        !(r is Died) ==> reads_as(r, stdout, err2, st2),
        r matches Isolated::Died(m) ==> starts_with(m@, st1),
{
    if let Isolated::Died(m) = r {
        let rest = " — stderr: "@ + join(last_lines(lines(err1), 3), " | "@);
        assert(m@ == st1 + rest) by {
            assert(died_text(st1, err1) =~= st1 + rest);
        }
        assert((st1 + rest).take(st1.len() as int) =~= st1);
    }
}

} // verus!
