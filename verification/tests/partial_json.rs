use mununu_core::partial_json::{breadcrumb_line, pending_records, PARTIAL_JSON_ENV};

#[test]
fn a_record_is_exactly_one_line_of_valid_json() {
    let line = breadcrumb_line(3, "fifo_sva_2", "holds", "main", Some(1250));
    assert!(
        !line.contains('\n'),
        "a record must not embed a raw newline"
    );
    let v: serde_json::Value = serde_json::from_str(&line).expect("valid JSON");
    assert_eq!(v["index"], 3);
    assert_eq!(v["property"], "fifo_sva_2");
    assert_eq!(v["outcome"], "holds");
    assert_eq!(v["phase"], "main");
    assert_eq!(v["elapsed_ms"], 1250);
}

#[test]
fn elapsed_is_omitted_rather_than_null_when_untimed() {
    let line = breadcrumb_line(0, "p", "unknown", "main", None);
    let v: serde_json::Value = serde_json::from_str(&line).expect("valid JSON");
    assert!(
        v.get("elapsed_ms").is_none(),
        "an absent timing is an absent key, not a null a consumer must special-case"
    );
}

#[test]
fn a_hostile_property_name_cannot_break_the_framing() {
    let nasty = "evil\", \"outcome\": \"holds\", \"x\": \"\n{\"injected\": true}";
    let line = breadcrumb_line(1, nasty, "violated", "main", None);
    assert!(!line.contains('\n'), "the embedded newline must be escaped");
    let v: serde_json::Value = serde_json::from_str(&line).expect("still one valid object");
    assert_eq!(v["property"], nasty, "the name round-trips verbatim");
    assert_eq!(
        v["outcome"], "violated",
        "the injected `outcome` must NOT have overridden the real one"
    );
    assert!(v.get("injected").is_none(), "no forged key appeared");
}

#[test]
fn pending_records_owes_only_what_is_new() {
    let mut props: Vec<(String, String)> = vec![("p0".into(), "holds".into())];
    let (lines, cursor) = pending_records(0, &props, "main");
    assert_eq!(lines.len(), 1);
    assert_eq!(cursor, 1);
    let (again, cursor2) = pending_records(cursor, &props, "main");
    assert!(again.is_empty(), "re-flushing an unchanged list must not duplicate records");
    assert_eq!(cursor2, 1);

    props.push(("p1".into(), "unknown".into()));
    let (lines, cursor) = pending_records(cursor, &props, "main");
    assert_eq!(lines.len(), 1, "only the new property is owed");
    assert_eq!(cursor, 2);
    let v: serde_json::Value = serde_json::from_str(&lines[0]).unwrap();
    assert_eq!(v["property"], "p1");
    assert_eq!(
        v["index"], 1,
        "the index is the property's position, not a write counter"
    );
    assert!(v.get("elapsed_ms").is_none());
}

#[test]
fn a_cursor_past_the_list_owes_nothing_and_stays() {
    let props: Vec<(String, String)> = vec![("p0".into(), "holds".into())];
    let (lines, cursor) = pending_records(5, &props, "escalated");
    assert!(lines.is_empty());
    assert_eq!(cursor, 5);
}

#[test]
fn the_variable_name_is_stable() {
    assert_eq!(PARTIAL_JSON_ENV, "MUNUNU_VERIFY_AUTO_PARTIAL_JSON");
}
