//! A kill-survivable breadcrumb of per-property verdicts: one JSON object per line, written and
//! flushed as each property completes, so that a run killed from outside still leaves every
//! verdict it reached on disk. A consumer reads the last line per property name.
//!
//! This module decides what the lines are; opening, writing and flushing the file is the
//! caller's.

use vstd::prelude::*;

verus! {

broadcast use vstd::string::group_string_axioms;

/// Path for the incremental NDJSON breadcrumb. Unset means no breadcrumb.
pub const PARTIAL_JSON_ENV: &'static str = "MUNUNU_VERIFY_AUTO_PARTIAL_JSON";

/// The compact JSON text that `serde_json` renders for an object holding the string-valued
/// `texts` and the number-valued `numbers`.
pub uninterp spec fn json_object_text(
    texts: Seq<(Seq<char>, Seq<char>)>,
    numbers: Seq<(Seq<char>, u64)>,
) -> Seq<char>;

pub open spec fn text_fields_view(v: Seq<(String, String)>) -> Seq<(Seq<char>, Seq<char>)> {
    v.map_values(|p: (String, String)| (p.0@, p.1@))
}

pub open spec fn number_fields_view(v: Seq<(String, u64)>) -> Seq<(Seq<char>, u64)> {
    v.map_values(|p: (String, u64)| (p.0@, p.1))
}

/// `serde_json::Value::to_string` on an object built from `texts` (string values) and
/// `numbers` (unsigned values) with `serde_json::Map::insert`. The text is named, not stated;
/// what is claimed besides is that it holds no raw newline: the compact formatter writes no
/// whitespace between tokens, and string contents are escaped (a newline becomes `\n`), so one
/// object is always exactly one line.
#[verifier::external_body]
fn json_object_line(texts: &Vec<(String, String)>, numbers: &Vec<(String, u64)>) -> (s: String)
    ensures
        s@ == json_object_text(text_fields_view(texts@), number_fields_view(numbers@)),
        !s@.contains('\n'),
{
    let obj: serde_json::Map<String, serde_json::Value> = texts.iter().map(
        |(k, v)| (k.clone(), serde_json::Value::from(v.as_str())),
    ).chain(numbers.iter().map(|(k, n)| (k.clone(), serde_json::Value::from(*n)))).collect();
    serde_json::Value::Object(obj).to_string()
}

/// The string fields of a record: the property's name, its outcome, and the phase.
pub open spec fn record_texts(name: Seq<char>, outcome: Seq<char>, phase: Seq<char>) -> Seq<
    (Seq<char>, Seq<char>),
> {
    seq![("property"@, name), ("outcome"@, outcome), ("phase"@, phase)]
}

/// The number fields of a record: its index, and the elapsed time only when it was measured
/// (an absent timing is an absent key, not a null).
pub open spec fn record_numbers(index: usize, elapsed_ms: Option<u64>) -> Seq<(Seq<char>, u64)> {
    seq![("index"@, index as u64)] + match elapsed_ms {
        Some(ms) => seq![("elapsed_ms"@, ms)],
        None => seq![],
    }
}

/// One record's line.
pub open spec fn record_line(
    index: usize,
    name: Seq<char>,
    outcome: Seq<char>,
    phase: Seq<char>,
    elapsed_ms: Option<u64>,
) -> Seq<char> {
    json_object_text(record_texts(name, outcome, phase), record_numbers(index, elapsed_ms))
}

/// Build one NDJSON line. The object is rendered by `serde_json`, so a property name holding a
/// quote, a backslash or a newline cannot break the framing; the line never holds a raw newline.
pub fn breadcrumb_line(
    index: usize,
    name: &str,
    outcome: &str,
    phase: &str,
    elapsed_ms: Option<u64>,
) -> (s: String)
    ensures
        s@ == record_line(index, name@, outcome@, phase@, elapsed_ms),
        !s@.contains('\n'),
{
    let mut texts: Vec<(String, String)> = Vec::new();
    texts.push((String::from_str("property"), String::from_str(name)));
    texts.push((String::from_str("outcome"), String::from_str(outcome)));
    texts.push((String::from_str("phase"), String::from_str(phase)));
    let mut numbers: Vec<(String, u64)> = Vec::new();
    numbers.push((String::from_str("index"), index as u64));
    if let Some(ms) = elapsed_ms {
        numbers.push((String::from_str("elapsed_ms"), ms));
    }
    assert(text_fields_view(texts@) =~= record_texts(name@, outcome@, phase@));
    assert(number_fields_view(numbers@) =~= record_numbers(index, elapsed_ms));
    json_object_line(&texts, &numbers)
}

/// How many records a list of `total` properties still owes when `recorded` were written.
pub open spec fn pending_count(recorded: usize, total: nat) -> nat {
    if total > recorded {
        (total - recorded) as nat
    } else {
        0
    }
}

/// The records owed for every property beyond the first `recorded`, in order, each carrying
/// the property's position in the list (not a write counter), and the cursor after writing
/// them. Calling this with the same list and the new cursor owes nothing, so it can be called
/// at the top of every iteration and only what is new is written.
pub fn pending_records(recorded: usize, all: &Vec<(String, String)>, phase: &str) -> (r: (
    Vec<String>,
    usize,
))
    ensures
        r.0@.len() == pending_count(recorded, all@.len()),
        forall|k: int|
            0 <= k < r.0@.len() ==> (#[trigger] r.0@[k])@ == record_line(
                (recorded + k) as usize,
                all@[recorded + k].0@,
                all@[recorded + k].1@,
                phase@,
                None,
            ),
        r.1 == if all@.len() > recorded {
            all@.len() as usize
        } else {
            recorded
        },
{
    let mut lines: Vec<String> = Vec::new();
    let mut i: usize = recorded;
    while i < all.len()
        invariant
            recorded <= i,
            i <= all@.len() || i == recorded,
            lines@.len() == i - recorded,
            forall|k: int|
                0 <= k < lines@.len() ==> (#[trigger] lines@[k])@ == record_line(
                    (recorded + k) as usize,
                    all@[recorded + k].0@,
                    all@[recorded + k].1@,
                    phase@,
                    None,
                ),
        decreases all@.len() - i,
    {
        let line = breadcrumb_line(i, all[i].0.as_str(), all[i].1.as_str(), phase, None);
        lines.push(line);
        i = i + 1;
    }
    let cursor = if all.len() > recorded {
        all.len()
    } else {
        recorded
    };
    (lines, cursor)
}

/// Recording the pending records twice with an unchanged list writes nothing the second time;
/// recording after the list grew writes exactly the new properties.
pub proof fn lemma_pending_records_write_only_what_is_new(recorded: usize, before: nat, after: nat)
    requires
        before <= after,
        after <= usize::MAX,
    ensures
        ({
            let cursor: usize = if before > recorded {
                before as usize
            } else {
                recorded
            };
            &&& pending_count(cursor, before) == 0
            &&& pending_count(cursor, after) + pending_count(recorded, before) == pending_count(
                recorded,
                after,
            )
        }),
{
}

} // verus!
