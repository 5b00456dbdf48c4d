use qaqh_workspace::file_shared::content_hash;
use qaqh_workspace::journal::log::{
    export_patches, query, record_change, replay_file, step_lines, Change, Journal, Kept,
};
use qaqh_workspace::journal::tool::{
    active_session, blob_path, cli_main, exec_journal, journal_root, replay_said, steps_path, CliCall,
    JournalReply,
};
use qaqh_workspace::json::Json;

fn record(
    j: &mut Journal,
    call: &str,
    tool: &str,
    op: &str,
    before: Option<&str>,
    after: Option<&str>,
) -> u64 {
    record_change(
        j,
        &Change {
            session: "s1",
            tool_use_id: call,
            tool,
            file: "a.txt",
            op,
            before,
            after,
            result: "ok",
            ts: 100,
            kept: Kept { before: true, after: true, patch: true },
        },
    )
}

#[test]
fn record_and_query_roundtrip() {
    let mut j = Journal::new();
    let seq = record(&mut j, "call_1", "write", "overwrite", Some("old\n"), Some("new\n"));
    assert!(seq >= 1);
    let steps = query(&j, Some("s1"), Some("a.txt"), None);
    assert_eq!(steps.len(), 1);
    assert_eq!(steps[0].seq, seq);
    assert_eq!(steps[0].before_sha.as_deref(), Some(content_hash("old\n").as_str()));
    assert_eq!(steps[0].after_sha.as_deref(), Some(content_hash("new\n").as_str()));
}

fn three_steps() -> Journal {
    let mut j = Journal::new();
    record(&mut j, "c1", "write", "overwrite", None, Some("hello\n"));
    record(&mut j, "c2", "edit", "replace", Some("hello\n"), Some("hello world\n"));
    record(&mut j, "c3", "delete", "delete", Some("hello world\n"), None);
    j
}

#[test]
fn replay_restores_byte_identical_content() {
    let j = three_steps();
    assert_eq!(replay_file(&j, "a.txt", None).expect("replay"), None);
    assert_eq!(replay_file(&j, "a.txt", Some(1)).expect("replay"), Some("hello\n".to_string()));
    assert_eq!(replay_file(&j, "a.txt", Some(2)).expect("replay"), Some("hello world\n".to_string()));
}

#[test]
fn export_patches_contains_unified_diff() {
    let mut j = Journal::new();
    record(&mut j, "c1", "write", "overwrite", None, Some("hello\n"));
    record(&mut j, "c2", "edit", "replace", Some("hello\n"), Some("hello world\n"));
    let patches = export_patches(&j, &query(&j, Some("s1"), None, None));
    assert!(patches.contains("--- a/a.txt"), "got: {patches}");
    assert!(patches.contains("+++ b/a.txt"), "got: {patches}");
    assert!(patches.contains("+hello world"), "got: {patches}");
}

#[test]
fn replay_names_where_the_file_goes() {
    let j = three_steps();
    let args = Json::Obj(vec![
        ("action".to_string(), Json::Str("replay".to_string())),
        ("file".to_string(), Json::Str("a.txt".to_string())),
        ("at".to_string(), Json::Uint(1)),
        ("out".to_string(), Json::Str("restored.txt".to_string())),
    ]);
    match exec_journal(&j, &args).unwrap() {
        JournalReply::File { file, out, content, .. } => {
            assert_eq!(file, "a.txt");
            assert_eq!(out.as_deref(), Some("restored.txt"));
            assert_eq!(content.as_deref(), Some("hello\n"));
        }
        r => panic!("{r:?}"),
    }
    assert!(exec_journal(&j, &Json::Obj(vec![])).is_ok());
}

#[test]
fn texts_that_were_not_kept_cannot_be_replayed() {
    let mut j = Journal::new();
    let c = Change {
        session: "s1",
        tool_use_id: "c1",
        tool: "write",
        file: "a.txt",
        op: "overwrite",
        before: None,
        after: Some("hello\n"),
        result: "ok",
        ts: 100,
        kept: Kept { before: false, after: false, patch: false },
    };
    record_change(&mut j, &c);
    assert!(matches!(replay_file(&j, "a.txt", None), Ok(None) | Err(_)));
    assert!(replay_file(&j, "other.txt", None).map_or(true, |c| c.is_none()));
}

#[test]
fn query_selects_by_session_file_and_time() {
    let j = three_steps();
    assert_eq!(query(&j, Some("s2"), None, None).len(), 0);
    assert_eq!(query(&j, None, Some("b.txt"), None).len(), 0);
    assert_eq!(query(&j, None, None, None).len(), 3);
    assert_eq!(query(&j, None, None, Some(101)).len(), 0);
}

#[test]
fn journal_lies_in_its_directory() {
    assert_eq!(journal_root(Some("/j"), "/data"), "/j");
    assert_eq!(steps_path("/j"), "/j/steps.jsonl");
    assert_eq!(blob_path("/j", "ab12"), "/j/blobs/ab12");
    assert_eq!(active_session(None), "");
    assert_eq!(active_session(Some("s")), "s");
    assert_eq!(step_lines("{}\r\n\n  {\"a\":1} \n"), vec!["{}", "{\"a\":1}"]);
}

#[test]
fn command_line_of_the_journal() {
    let call = |args: &[&str]| cli_main(&args.iter().map(|s| s.to_string()).collect::<Vec<_>>());
    assert_eq!(
        call(&["query", "--session", "s", "--since", "5"]),
        Ok(CliCall::Query { session: Some("s".to_string()), file: None, since: Some(5) })
    );
    assert_eq!(
        call(&["replay", "a.txt", "--at", "2"]),
        Ok(CliCall::Replay { target: "a.txt".to_string(), at: Some(2), out: None })
    );
    assert!(call(&["frobnicate"]).is_err());
    assert!(call(&[]).is_err());
}

#[test]
fn later_changes_leave_the_past_alone() {
    let mut j = Journal::new();
    let first = record(&mut j, "c1", "write", "overwrite", None, Some("v0\n"));
    for i in 1..20 {
        let (before, after) = (format!("v{}\n", i - 1), format!("v{i}\n"));
        record(&mut j, "c", "edit", "replace", Some(&before), Some(&after));
    }
    assert_eq!(replay_file(&j, "a.txt", Some(first)), Ok(Some("v0\n".to_string())));
    assert_eq!(replay_file(&j, "a.txt", Some(first + 7)), Ok(Some("v7\n".to_string())));
}

#[test]
fn a_replay_is_told() {
    assert_eq!(replay_said(Ok(Some("text".to_string()))), ("text".to_string(), 0));
    assert_eq!(replay_said(Ok(None)), ("(file did not exist at requested sequence)".to_string(), 0));
    assert_eq!(
        replay_said(Err("no blob".to_string())),
        ("journal replay failed: no blob".to_string(), 1)
    );
}
