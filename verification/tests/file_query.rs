use qaqh_workspace::edit::handler::{exec_edit, plan_edit, EditDecision, EditPlan};
use qaqh_workspace::edit::read::FileRead;
use qaqh_workspace::edit::report::record_commit;
use qaqh_workspace::file_query::{exec_read, read_item, requests_of, Probe, ReadBatch};
use qaqh_workspace::file_shared::content_hash;
use qaqh_workspace::json::Json;
use qaqh_workspace::ledger::{record_edit_with_shifts, record_write, Ledger};
use qaqh_workspace::refusal::Refusal;

fn from_value(v: serde_json::Value) -> Json {
    match v {
        serde_json::Value::Null => Json::Null,
        serde_json::Value::Bool(b) => Json::Bool(b),
        serde_json::Value::Number(n) => match (n.as_u64(), n.as_i64()) {
            (Some(u), _) => Json::Uint(u),
            (None, Some(i)) => Json::Int(i),
            _ => Json::Float(n.to_string()),
        },
        serde_json::Value::String(s) => Json::Str(s),
        serde_json::Value::Array(a) => Json::Arr(a.into_iter().map(from_value).collect()),
        serde_json::Value::Object(o) => {
            Json::Obj(o.into_iter().map(|(k, v)| (k, from_value(v))).collect())
        }
    }
}

fn json(text: &str) -> Json {
    from_value(serde_json::from_str(text).unwrap())
}

fn read(ledger: &mut Ledger, path: &str, text: &str, args: &str) -> Result<ReadBatch, Refusal> {
    let item = read_item(&json(args), path.to_string(), Probe::Text(text.to_string()));
    exec_read(ledger, &[item])
}

#[test]
fn read_directory_is_an_explicit_error() {
    let item = read_item(&json("{}"), "dir".to_string(), Probe::Directory);
    let refusal = exec_read(&mut Ledger::new(), &[item]).unwrap_err();
    assert_eq!(refusal.code, "IS_DIRECTORY");
}

#[test]
fn read_range_is_contiguous_and_numbered() {
    let result = read(
        &mut Ledger::new(),
        "x.txt",
        "one\ntwo\nthree\n",
        r#"{"start_line": 2, "end_line": 3}"#,
    )
    .unwrap();
    assert_eq!(result.text, "L2: two\nL3: three");
    assert_eq!(result.files[0].start_line, 2);
    assert_eq!(result.files[0].end_line, 3);
    assert_eq!(result.files[0].hash, content_hash("one\ntwo\nthree\n"));
}

#[test]
fn zero_line_is_tolerated_as_one() {
    let result =
        read(&mut Ledger::new(), "x.txt", "one\ntwo\n", r#"{"start_line": 0, "end_line": 1}"#).unwrap();
    assert_eq!(result.text, "L1: one");
    assert_eq!(result.files[0].start_line, 1);
}

#[test]
fn out_of_range_end_truncates_instead_of_rejecting() {
    let result = read(
        &mut Ledger::new(),
        "x.txt",
        "one\ntwo\nthree\nfour\n",
        r#"{"start_line": 2, "end_line": 99}"#,
    )
    .unwrap();
    assert_eq!(result.text, "L2: two\nL3: three\nL4: four");
    let meta = &result.files[0];
    assert_eq!(meta.end_line, 4);
    assert_eq!(meta.total_lines, 4);
    assert_eq!(meta.next_line, None);
}

#[test]
fn out_of_range_start_still_rejects() {
    let result = read(&mut Ledger::new(), "x.txt", "one\ntwo\n", r#"{"start_line": 10}"#);
    let refusal = result.unwrap_err();
    assert_eq!(refusal.code, "LINE_OUT_OF_RANGE");
    assert_eq!(refusal.total_lines, Some(2));
}

#[test]
fn the_line_behind_the_last_is_out_of_range() {
    let refusal =
        read(&mut Ledger::new(), "x.txt", "one\ntwo\n", r#"{"start_line": 3}"#).unwrap_err();
    assert_eq!(refusal.code, "LINE_OUT_OF_RANGE");
    assert_eq!(refusal.total_lines, Some(2));
    let last = read(&mut Ledger::new(), "x.txt", "one\ntwo\n", r#"{"start_line": 2}"#).unwrap();
    assert_eq!(last.files[0].start_line, 2);
    assert!(read(&mut Ledger::new(), "x.txt", "", r#"{"start_line": 1}"#).is_ok());
}

#[test]
fn ledger_corrects_stale_line_numbers_after_edit() {
    let mut ledger = Ledger::new();
    read(&mut ledger, "y.txt", "one\ntwo\nthree\n", "{}").unwrap();
    let new_content = "one\nINS1\nINS2\ntwo\nthree\n";
    record_edit_with_shifts(&mut ledger, "y.txt", new_content, &[(2, 2)]);
    let r2 = read(&mut ledger, "y.txt", new_content, r#"{"start_line": 3, "end_line": 3}"#).unwrap();
    assert_eq!(r2.text, "L5: three");
    assert_eq!(r2.files[0].correction, Some((3, 3, 2)));
}

#[test]
fn external_modification_is_not_corrected() {
    let mut ledger = Ledger::new();
    read(&mut ledger, "z.txt", "one\ntwo\nthree\n", "{}").unwrap();
    let r2 = read(&mut ledger, "z.txt", "one\nEXT\nthree\n", r#"{"start_line": 3, "end_line": 3}"#).unwrap();
    assert_eq!(r2.files[0].correction, None, "external change must not be corrected");
}

#[test]
fn write_clears_shift_chain() {
    let mut ledger = Ledger::new();
    read(&mut ledger, "w.txt", "one\ntwo\n", "{}").unwrap();
    record_edit_with_shifts(&mut ledger, "w.txt", "one\ntwo\n", &[(1, 3)]);
    record_write(&mut ledger, "w.txt", "a\nb\nc\nd\n");
    let r2 = read(&mut ledger, "w.txt", "a\nb\nc\nd\n", r#"{"start_line": 3, "end_line": 3}"#).unwrap();
    assert_eq!(r2.text, "L3: c");
    assert_eq!(r2.files[0].correction, None, "write semantics must clear the shift chain");
}

/// Edits a text, and enters the edit into the ledger.
fn edit(ledger: &mut Ledger, path: &str, text: &str, args: &str) -> (String, bool) {
    let call = match plan_edit(&json(args)).unwrap() {
        EditPlan::Edit(call) => call,
        EditPlan::Read { .. } => panic!("a read"),
    };
    match exec_edit(call, FileRead::Text(text.to_string())) {
        EditDecision::Commit { content, complete, outcome, .. } => {
            record_commit(ledger, path, &content, &outcome.shifts);
            (content, complete)
        }
        d => panic!("{d:?}"),
    }
}

#[test]
fn end_to_end_edit_then_stale_read_is_corrected() {
    let mut ledger = Ledger::new();
    let r1 = read(&mut ledger, "e2e.txt", "a\nb\nc\nd\ne\n", "{}").unwrap();
    let h1 = &r1.files[0].hash;
    let (text, _) = edit(
        &mut ledger,
        "e2e.txt",
        "a\nb\nc\nd\ne\n",
        &format!(
            r#"{{"path": "e2e.txt", "expected_hash": "{h1}",
                "hunks": [{{"kind": "insert_after", "anchor": "c", "new": "C1\nC2\n"}}]}}"#
        ),
    );
    let r2 = read(&mut ledger, "e2e.txt", &text, r#"{"start_line": 5, "end_line": 5}"#).unwrap();
    assert_eq!(r2.text, "L7: e");
    assert_eq!(r2.files[0].correction, Some((5, 5, 2)));
}

#[test]
fn partial_edit_records_shifts_for_applied_hunks_only() {
    let mut ledger = Ledger::new();
    read(&mut ledger, "p.txt", "a\nb\nc\nd\n", "{}").unwrap();
    let (text, complete) = edit(
        &mut ledger,
        "p.txt",
        "a\nb\nc\nd\n",
        r#"{"path": "p.txt", "mode": "partial", "hunks": [
            {"kind": "replace", "old": "b", "new": "B1\nB2"},
            {"kind": "replace", "old": "zzz", "new": "yyy"}]}"#,
    );
    assert!(!complete);
    let r2 = read(&mut ledger, "p.txt", &text, r#"{"start_line": 4, "end_line": 4}"#).unwrap();
    assert_eq!(r2.text, "L5: d");
    assert_eq!(r2.files[0].correction, Some((4, 4, 1)));
}

#[test]
fn unchanged_files_are_not_sent_again() {
    let hash = content_hash("a\n");
    let r = read(&mut Ledger::new(), "f", "a\r\n", &format!(r#"{{"if_hash": "{hash}"}}"#)).unwrap();
    assert!(r.files[0].not_modified);
    assert_eq!(r.text, "not modified");
}

#[test]
fn several_files_are_read_at_once() {
    let mut ledger = Ledger::new();
    let items = vec![
        read_item(&json("{}"), "a".to_string(), Probe::Text("1\n".to_string())),
        read_item(&json("{}"), "b".to_string(), Probe::Text("2\n".to_string())),
    ];
    let r = exec_read(&mut ledger, &items).unwrap();
    assert_eq!(r.files.len(), 2);
    assert_eq!(r.text, "L1: 1\n\n---\n\nL1: 2");
    assert_eq!(requests_of(&json(r#"{"requests": []}"#)).unwrap_err().code, "INVALID_REQUEST_COUNT");
    assert_eq!(requests_of(&json(r#"{"path": "a"}"#)).unwrap().len(), 1);
}

#[test]
fn long_files_are_cut_and_can_be_continued() {
    let text = "x\n".repeat(5_000);
    let r = read(&mut Ledger::new(), "f", &text, "{}").unwrap();
    let f = &r.files[0];
    assert_eq!(f.total_lines, 5_000);
    assert_eq!(f.next_line, Some(f.end_line + 1));
    assert!(f.end_line < 5_000);
    let refusal = read(&mut Ledger::new(), "f", &text, r#"{"start_line": 1, "end_line": 5000}"#);
    assert_eq!(refusal.unwrap_err().code, "RANGE_TOO_LARGE");
}
