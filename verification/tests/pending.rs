use qaqh_workspace::apply_patch_engine::engine::{Change, Target};
use qaqh_workspace::apply_patch_engine::file_update::UpdateMode;
use qaqh_workspace::apply_patch_engine::run::PatchRun;
use qaqh_workspace::confirm_apply::{exec_confirm_apply, Confirmed, ReplayTool};
use qaqh_workspace::edit::handler::{
    edit_step, exec_edit, plan_edit, replay_args, EditDecision, EditPlan, EditStep,
};
use qaqh_workspace::edit::read::FileRead;
use qaqh_workspace::file_mutate::{exec_write_file, plan_write, WriteDecision};
use qaqh_workspace::json::Json;
use qaqh_workspace::ledger::Ledger;
use qaqh_workspace::pending::{store, take, PendingRegistry, TTL};
use qaqh_workspace::refusal::Refusal;

fn from_value(v: serde_json::Value) -> Json {
    match v {
        serde_json::Value::Null => Json::Null,
        serde_json::Value::Bool(b) => Json::Bool(b),
        serde_json::Value::Number(n) => match (n.as_u64(), n.as_i64()) {
            (Some(u), _) => Json::Uint(u),
            (None, Some(i)) => Json::Int(i),
            _ => Json::Float(n.to_string()),
        },
        serde_json::Value::String(s) => Json::Str(s),
        serde_json::Value::Array(a) => Json::Arr(a.into_iter().map(from_value).collect()),
        serde_json::Value::Object(o) => {
            Json::Obj(o.into_iter().map(|(k, v)| (k, from_value(v))).collect())
        }
    }
}

fn json(text: &str) -> Json {
    from_value(serde_json::from_str(text).unwrap())
}

#[test]
fn store_take_roundtrip() {
    let mut reg = PendingRegistry::new();
    let id = store(&mut reg, "edit", json(r#"{"path": "a.rs"}"#), 1, 0);
    assert!(id.starts_with('p'));
    let p = take(&mut reg, &id, 0).expect("pending exists");
    assert_eq!(p.tool_name, "edit");
    assert_eq!(p.args.get_str("path"), Some("a.rs"));
    assert!(take(&mut reg, &id, 0).is_none());
}

#[test]
fn unknown_or_taken_id_is_none() {
    let mut reg = PendingRegistry::new();
    assert!(take(&mut reg, "pnonexistent", 0).is_none());
    let id = store(&mut reg, "write", json("{}"), 1, 0);
    take(&mut reg, &id, 0).unwrap();
    assert!(take(&mut reg, &id, 0).is_none());
}

#[test]
fn dry_runs_are_forgotten_after_a_while() {
    let mut reg = PendingRegistry::new();
    let a = store(&mut reg, "edit", json("{}"), 7, 1_000);
    let b = store(&mut reg, "edit", json("{}"), 7, 1_000);
    assert_ne!(a, b);
    assert!(take(&mut reg, &a, 1_000 + TTL - 1).is_some());
    assert!(take(&mut reg, &b, 1_000 + TTL + 1).is_none());
}

fn run_confirm(reg: &mut PendingRegistry, id: &str, action: &str) -> Result<Confirmed, Refusal> {
    let args = Json::Obj(vec![
        ("pending_id".to_string(), Json::Str(id.to_string())),
        ("action".to_string(), Json::Str(action.to_string())),
    ]);
    exec_confirm_apply(reg, &args, 0)
}

fn edit(args: &Json, file: &str) -> EditDecision {
    edit_on(args, FileRead::Text(file.to_string()))
}

fn edit_on(args: &Json, file: FileRead) -> EditDecision {
    match plan_edit(args).unwrap() {
        EditPlan::Edit(call) => exec_edit(call, file),
        EditPlan::Read { .. } => panic!("a read"),
    }
}

/// Tries an edit of `f.txt` out and keeps its arguments.
fn dry_run_v2(reg: &mut PendingRegistry, old: &str, new: &str) -> String {
    let args = Json::Obj(vec![
        ("path".to_string(), Json::Str("f.txt".to_string())),
        ("dry_run".to_string(), Json::Bool(true)),
        (
            "hunks".to_string(),
            Json::Arr(vec![Json::Obj(vec![
                ("kind".to_string(), Json::Str("replace".to_string())),
                ("old".to_string(), Json::Str(old.to_string())),
                ("new".to_string(), Json::Str(new.to_string())),
            ])]),
        ),
    ]);
    match edit(&args, old) {
        EditDecision::Commit { base_hash, .. } => store(reg, "edit", replay_args(args, base_hash), 1, 0),
        d => panic!("dry run failed: {d:?}"),
    }
}

#[test]
fn v2_dry_run_then_confirm_applies_without_resending_hunks() {
    let mut reg = PendingRegistry::new();
    let pending_id = dry_run_v2(&mut reg, "a\nb\nc\n", "A\nb\nc\n");
    match run_confirm(&mut reg, &pending_id, "apply").unwrap() {
        Confirmed::Replay { tool, args } => {
            assert_eq!(tool, ReplayTool::Edit);
            assert_eq!(args.get_bool("dry_run"), None);
            match edit(&args, "a\nb\nc\n") {
                EditDecision::Commit { content, .. } => assert_eq!(content, "A\nb\nc\n"),
                d => panic!("{d:?}"),
            }
        }
        c => panic!("{c:?}"),
    }
    let again = run_confirm(&mut reg, &pending_id, "apply").unwrap_err();
    assert_eq!(again.code, "PENDING_NOT_FOUND_OR_EXPIRED");
}

#[test]
fn discard_drops_pending_without_writing() {
    let mut reg = PendingRegistry::new();
    let pending_id = dry_run_v2(&mut reg, "x\ny\n", "X\ny\n");
    let out = run_confirm(&mut reg, &pending_id, "discard").unwrap();
    assert!(matches!(out, Confirmed::Discarded { .. }), "discard failed: {out:?}");
    let again = run_confirm(&mut reg, &pending_id, "apply").unwrap_err();
    assert_eq!(again.code, "PENDING_NOT_FOUND_OR_EXPIRED");
}

#[test]
fn confirm_rejected_when_file_changed_after_dry_run() {
    let mut reg = PendingRegistry::new();
    let pending_id = dry_run_v2(&mut reg, "a\nb\n", "A\nb\n");
    match run_confirm(&mut reg, &pending_id, "apply").unwrap() {
        Confirmed::Replay { args, .. } => match edit(&args, "a\nCHANGED\n") {
            EditDecision::Stale { text, .. } => assert!(text.contains("HASH_MISMATCH"), "got: {text}"),
            d => panic!("{d:?}"),
        },
        c => panic!("{c:?}"),
    }
}

#[test]
fn write_dry_run_then_confirm() {
    let mut reg = PendingRegistry::new();
    let args = json(r#"{"path": "w.txt", "content": "new content\n", "dry_run": true}"#);
    let dry = plan_write(&args, "w.txt".to_string());
    let base = match exec_write_file(&Ledger::new(), &dry, Some("old\n".to_string())) {
        WriteDecision::Preview { base_hash, .. } => base_hash,
        d => panic!("{d:?}"),
    };
    let pending_id = store(&mut reg, "write", replay_args(args, Some(base)), 1, 0);
    match run_confirm(&mut reg, &pending_id, "apply").unwrap() {
        Confirmed::Replay { tool, args } => {
            assert_eq!(tool, ReplayTool::Write);
            let call = plan_write(&args, "w.txt".to_string());
            match exec_write_file(&Ledger::new(), &call, Some("old\n".to_string())) {
                WriteDecision::Write { after, .. } => assert_eq!(after, "new content\n"),
                d => panic!("confirm write failed: {d:?}"),
            }
        }
        c => panic!("{c:?}"),
    }
}

#[test]
fn apply_patch_dry_run_then_confirm() {
    let mut reg = PendingRegistry::new();
    let patch = "*** Begin Patch\n*** Update File: a.txt\n@@\n-line2\n+LINE2\n*** End Patch\n";
    let run = |patch: &str, dry_run: bool| {
        let mut run = PatchRun::begin(patch, UpdateMode::PreserveLineEndings, dry_run).unwrap();
        assert_eq!(run.reads(), Some("a.txt"));
        run.step("a.txt", Target::File(Ok("line1\nline2\n".to_string()))).unwrap()
    };
    run(patch, true);
    let args = Json::Obj(vec![("patch".to_string(), Json::Str(patch.to_string()))]);
    let pending_id = store(&mut reg, "apply_patch", args, 1, 0);
    match run_confirm(&mut reg, &pending_id, "apply").unwrap() {
        Confirmed::Replay { tool, args } => {
            assert_eq!(tool, ReplayTool::ApplyPatch);
            let change = run(args.get_str("patch").unwrap(), false);
            assert_eq!(change, Change::Write("line1\nLINE2\n".to_string()));
        }
        c => panic!("{c:?}"),
    }
}

#[test]
fn missing_pending_id_is_error() {
    let mut reg = PendingRegistry::new();
    assert_eq!(run_confirm(&mut reg, "", "apply").unwrap_err().code, "MISSING_PENDING_ID");
}

#[test]
fn unknown_actions_and_tools_are_refused() {
    let mut reg = PendingRegistry::new();
    let id = store(&mut reg, "edit", json("{}"), 1, 0);
    assert_eq!(run_confirm(&mut reg, &id, "perhaps").unwrap_err().code, "INVALID_ACTION");
    let id = store(&mut reg, "exec", json("{}"), 1, 0);
    assert_eq!(run_confirm(&mut reg, &id, "apply").unwrap_err().code, "UNKNOWN_PENDING_TOOL");
}

#[test]
fn a_dry_run_that_creates_a_file_can_be_confirmed() {
    let mut reg = PendingRegistry::new();
    let args = json(
        r#"{"path": "new.txt", "dry_run": true, "hunks": [{"kind": "prepend_file", "new": "hello\n"}]}"#,
    );
    let dry = edit_on(&args, FileRead::Missing);
    assert_eq!(edit_step(&dry, true), EditStep::Keep);
    let (shown, base) = match dry {
        EditDecision::Commit { content, base_hash, .. } => (content, base_hash),
        d => panic!("{d:?}"),
    };
    assert_eq!(base, None);
    let pending_id = store(&mut reg, "edit", replay_args(args, base), 1, 0);
    match run_confirm(&mut reg, &pending_id, "apply").unwrap() {
        Confirmed::Replay { args, .. } => {
            assert_eq!(args.get_str("expected_hash"), None);
            let replayed = edit_on(&args, FileRead::Missing);
            assert_eq!(edit_step(&replayed, false), EditStep::Write);
            match replayed {
                EditDecision::Commit { content, .. } => assert_eq!(content, shown),
                d => panic!("{d:?}"),
            }
        }
        c => panic!("{c:?}"),
    }
}

#[test]
fn a_dry_run_decides_as_the_call_itself() {
    let hunks = r#""hunks": [{"kind": "replace", "old": "b", "new": "B"}]"#;
    let dry = edit(&json(&format!(r#"{{"path": "f.txt", "dry_run": true, {hunks}}}"#)), "a\nb\n");
    let real = edit(&json(&format!(r#"{{"path": "f.txt", {hunks}}}"#)), "a\nb\n");
    assert_eq!(dry, real);
    match real {
        EditDecision::Commit { content, .. } => assert_eq!(content, "a\nB\n"),
        d => panic!("{d:?}"),
    }
    let refused = edit(&json(r#"{"path": "f", "hunks": [{"kind": "replace", "old": "zz", "new": "B"}]}"#), "a\n");
    assert_eq!(edit_step(&refused, false), EditStep::Answer);
}

#[test]
fn a_write_dry_run_that_creates_a_file_can_be_confirmed() {
    let args = json(r#"{"path": "w.txt", "content": "new\n", "dry_run": true}"#);
    let base = match exec_write_file(&Ledger::new(), &plan_write(&args, "w.txt".to_string()), None) {
        WriteDecision::Preview { base_hash, .. } => base_hash,
        d => panic!("{d:?}"),
    };
    let call = plan_write(&replay_args(args, Some(base)), "w.txt".to_string());
    match exec_write_file(&Ledger::new(), &call, None) {
        WriteDecision::Write { after, .. } => assert_eq!(after, "new\n"),
        d => panic!("{d:?}"),
    }
}
