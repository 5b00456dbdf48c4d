use qaqh_workspace::file_mutate::{
    check_delete, confirm_hint, exec_write_file, plan_write, trash_name, trash_step, write_error, DeleteRefusal,
    TrashEvent, TrashStep, WriteCall, WriteDecision, WriteFailure,
};
use qaqh_workspace::file_shared::content_hash;
use qaqh_workspace::json::Json;
use qaqh_workspace::ledger::{record_read, Ledger};

fn call(path: &str, content: &str, flags: &[&str]) -> WriteCall {
    let mut pairs = vec![("content".to_string(), Json::Str(content.to_string()))];
    for f in flags {
        pairs.push((f.to_string(), Json::Bool(true)));
    }
    plan_write(&Json::Obj(pairs), path.to_string())
}

fn write(call: &WriteCall, file: &mut Option<String>) -> String {
    match exec_write_file(&Ledger::new(), call, file.clone()) {
        WriteDecision::Write { after, text, .. } => {
            *file = Some(after);
            text
        }
        WriteDecision::Preview { text, .. } => text,
        WriteDecision::Stale { .. } => panic!("stale"),
    }
}

#[test]
fn overwrite_returns_summary_without_diff_body() {
    let mut file = Some("line1\nline2\nline3\n".to_string());
    let out = write(&call("a.txt", "line1\nCHANGED\nline3\n", &[]), &mut file);
    assert!(out.starts_with("[OK] "), "got: {out}");
    assert!(out.contains("+1 -1"), "got: {out}");
    assert!(out.contains("| write"), "got: {out}");
    assert!(!out.contains("--- a/"), "diff body leaked: {out}");
    assert!(!out.contains("+++ b/"), "diff body leaked: {out}");
    assert!(!out.contains("CHANGED"), "content echo leaked: {out}");
    assert_eq!(file.as_deref(), Some("line1\nCHANGED\nline3\n"));
}

#[test]
fn dry_run_previews_diff_without_writing() {
    let mut file = Some("old\n".to_string());
    let out = write(&call("b.txt", "new\n", &["dry_run"]), &mut file);
    assert!(out.starts_with("[DRY RUN] "), "got: {out}");
    assert!(out.contains("--- a/"), "dry_run must include diff: {out}");
    assert!(out.contains("+++ b/"), "dry_run must include diff: {out}");
    assert_eq!(file.as_deref(), Some("old\n"));
}

#[test]
fn append_returns_summary_without_content_echo() {
    let mut file = Some("a\nb\n".to_string());
    let out = write(&call("c.txt", "appended-line\n", &["append"]), &mut file);
    assert!(out.starts_with("[OK] "), "got: {out}");
    assert!(out.contains("+1 -0"), "got: {out}");
    assert!(!out.contains("appended-line"), "content echo leaked: {out}");
    assert_eq!(file.as_deref(), Some("a\nb\nappended-line\n"));
}

#[test]
fn write_error_classifies_by_io_kind() {
    let out = write_error("x/y.txt", WriteFailure::NotFound, "no such dir");
    assert!(out.starts_with("[ERROR] Cannot write x/y.txt"), "got: {out}");
    assert!(out.contains("[HINT]"), "got: {out}");
    assert!(out.contains("parent directory"), "kind-specific hint missing: {out}");
    let out = write_error("x/y.txt", WriteFailure::PermissionDenied, "denied");
    assert!(out.contains("read-only"), "kind-specific hint missing: {out}");
}

#[test]
fn write_to_directory_path_reports_error() {
    let out = write_error("sub", WriteFailure::IsADirectory, "Is a directory");
    assert!(out.starts_with("[ERROR]"), "got: {out}");
    assert!(out.contains("[HINT]"), "got: {out}");
}

#[test]
fn stale_content_is_not_overwritten() {
    let mut c = call("f", "new", &[]);
    c.expected_hash = "0000".to_string();
    match exec_write_file(&Ledger::new(), &c, Some("old".to_string())) {
        WriteDecision::Stale { expected, actual, named } => {
            assert_eq!((expected.as_str(), named), ("0000", true));
            assert_eq!(actual, content_hash("old"));
        }
        d => panic!("{d:?}"),
    }
    let mut ledger = Ledger::new();
    record_read(&mut ledger, "f", "read before\n", 1);
    match exec_write_file(&ledger, &call("f", "new", &[]), Some("changed since\n".to_string())) {
        WriteDecision::Stale { expected, named, .. } => {
            assert_eq!(expected, content_hash("read before\n"));
            assert!(!named);
        }
        d => panic!("{d:?}"),
    }
}

#[test]
fn deleting_checks_what_is_there() {
    let mut ledger = Ledger::new();
    assert!(matches!(check_delete(&ledger, "f", false, None), Err(DeleteRefusal::NotFound { .. })));
    assert_eq!(check_delete(&ledger, "f", true, Some("x")), Ok(()));
    record_read(&mut ledger, "f", "seen\n", 1);
    assert_eq!(check_delete(&ledger, "f", true, Some("seen\n")), Ok(()));
    assert!(matches!(check_delete(&ledger, "f", true, Some("other\n")), Err(DeleteRefusal::Stale { .. })));
    assert_eq!(check_delete(&ledger, "f", true, None), Ok(()));
}

#[test]
fn deleted_files_go_to_the_trash() {
    assert_eq!(trash_name("src/a b.rs", 7), "src__a b.rs.7");
    let step = |e| trash_step("src/a.rs", "src__a.rs.7", ".deepx/trash/src__a.rs.7", e);
    match step(TrashEvent::Renamed) {
        TrashStep::Done(r) => {
            assert!(r.ok && r.gone);
            assert_eq!(r.message, "Moved to trash: .deepx/trash/src__a.rs.7");
        }
        s => panic!("{s:?}"),
    }
    assert_eq!(step(TrashEvent::RenameFailed { is_dir: false }), TrashStep::Copy);
    assert_eq!(step(TrashEvent::Copied), TrashStep::Remove);
    match step(TrashEvent::CopyFailed("disk full".to_string())) {
        TrashStep::Done(r) => assert!(!r.ok && !r.gone && r.message.contains("disk full")),
        s => panic!("{s:?}"),
    }
}

#[test]
fn pending_writes_say_how_to_confirm_them() {
    assert_eq!(
        confirm_hint("p1"),
        "pending_id=p1 — confirm with confirm_apply {\"pending_id\":\"p1\",\"action\":\"apply\"}"
    );
}
