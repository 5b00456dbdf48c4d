use std::collections::HashMap;

use qaqh_workspace::apply_patch::{patch_stats, plan_patch, record_patch, refuse_patch, render_patch};
use qaqh_workspace::apply_patch_engine::engine::{ApplyOutcome, Change, EngineError, Target};
use qaqh_workspace::apply_patch_engine::file_update::UpdateMode;
use qaqh_workspace::apply_patch_engine::parser::{parse_patch, Hunk};
use qaqh_workspace::apply_patch_engine::run::{check_inside, PatchRun};
use qaqh_workspace::bounds::parts_of;
use qaqh_workspace::json::Json;
use qaqh_workspace::ledger::{last_hash, Ledger};

type Files = HashMap<String, String>;

fn files(all: &[(&str, &str)]) -> Files {
    all.iter().map(|(n, c)| (n.to_string(), c.to_string())).collect()
}

fn apply_with(files: &mut Files, patch: &str, mode: UpdateMode, dry_run: bool) -> Result<ApplyOutcome, EngineError> {
    let mut run = PatchRun::begin(patch, mode, dry_run)?;
    while let Some(path) = run.reads().map(str::to_string) {
        let to = run.leaves().unwrap().to_string();
        let target = match files.get(&path) {
            Some(t) => Target::File(Ok(t.clone())),
            None => Target::Missing("No such file or directory".to_string()),
        };
        let change = run.step(&path, target)?;
        if dry_run {
            continue;
        }
        match change {
            Change::Write(content) => {
                files.insert(to, content);
            }
            Change::Remove => {
                files.remove(&path);
            }
            Change::Move(content) => {
                files.remove(&path);
                files.insert(to, content);
            }
        }
    }
    Ok(run.finish())
}

fn apply(files: &mut Files, patch: &str, dry_run: bool) -> Result<ApplyOutcome, EngineError> {
    apply_with(files, patch, UpdateMode::PreserveLineEndings, dry_run)
}

#[test]
fn codex_format_routes_to_engine_and_writes() {
    let mut dir = files(&[("a.txt", "line1\nline2\nline3\n")]);
    let patch = "\
*** Begin Patch
*** Update File: a.txt
@@
-line2
+LINE2
*** End Patch
";
    let out = apply(&mut dir, patch, false).unwrap();
    assert_eq!(out.affected.all().len(), 1);
    assert_eq!(patch_stats(&out.deltas), (1, 1));
    assert_eq!(dir["a.txt"].replace("\r\n", "\n"), "line1\nLINE2\nline3\n");
}

#[test]
fn codex_format_dry_run_prechecks_without_writing() {
    let mut dir = files(&[("a.txt", "line1\nline2\n")]);
    let patch = "\
*** Begin Patch
*** Update File: a.txt
@@
-line2
++LINE2
*** End Patch
";
    let out = apply(&mut dir, patch, true).unwrap();
    assert_eq!(out.affected.all().len(), 1);
    assert!(out.affected.all()[0].ends_with("a.txt"));
    assert_eq!(dir["a.txt"], "line1\nline2\n");
}

#[test]
fn codex_format_no_match_rejects_with_zero_changes() {
    let mut dir = files(&[("a.txt", "line1\nline2\n")]);
    let patch = "\
*** Begin Patch
*** Update File: a.txt
@@
-never-exists
++NOPE
*** End Patch
";
    let e = apply(&mut dir, patch, false).unwrap_err();
    assert_eq!(refuse_patch(&e).code, "NO_MATCH");
    assert_eq!(dir["a.txt"], "line1\nline2\n");
}

#[test]
fn files_written_before_a_failed_hunk_stay() {
    let mut dir = files(&[("a.txt", "line1\n"), ("b.txt", "line1\n")]);
    let patch = "\
*** Begin Patch
*** Update File: a.txt
@@
-line1
+one
*** Update File: b.txt
@@
-never-exists
+NOPE
*** End Patch
";
    let e = apply(&mut dir, patch, false).unwrap_err();
    let hint = refuse_patch(&e).hint.unwrap();
    assert!(hint.contains("files already written stay"), "{hint}");
    assert_eq!((dir["a.txt"].as_str(), dir["b.txt"].as_str()), ("one\n", "line1\n"));
}

#[test]
fn patches_add_move_and_delete_files() {
    let mut dir = files(&[("old.txt", "a\nb\n"), ("gone.txt", "x\n")]);
    let patch = "\
*** Begin Patch
*** Add File: new.txt
+hello
*** Update File: old.txt
*** Move to: moved.txt
@@
 a
-b
+B
*** Delete File: gone.txt
*** End Patch
";
    let out = apply(&mut dir, patch, false).unwrap();
    assert_eq!(dir, files(&[("new.txt", "hello\n"), ("moved.txt", "a\nB\n")]));
    assert_eq!(out.affected.added, vec!["new.txt"]);
    assert_eq!(out.affected.deleted, vec!["gone.txt"]);
    assert_eq!(patch_stats(&out.deltas), (2, 2));
    let mut ledger = Ledger::new();
    record_patch(&mut ledger, &out.deltas);
    assert!(last_hash(&ledger, "new.txt").is_some());
    assert_eq!(render_patch(&out, false), "[OK] apply_patch — applied: 3 file(s), +2 -2\n");
}

#[test]
fn first_failure_ends_a_patch_and_keeps_what_was_written() {
    let mut dir = files(&[("a", "1\n"), ("b", "2\n")]);
    let patch = "\
*** Begin Patch
*** Update File: a
@@
-1
+one
*** Update File: b
@@
-nope
+two
*** End Patch
";
    assert!(apply(&mut dir, patch, false).is_err());
    assert_eq!(dir["a"], "one\n");
    assert_eq!(dir["b"], "2\n");
    let mut again = files(&[("a", "1\n"), ("b", "2\n")]);
    assert!(apply(&mut again, patch, true).is_err());
    assert_eq!(again["a"], "1\n");
}

#[test]
fn line_endings_are_kept_or_normalized() {
    let patch = "*** Begin Patch\n*** Update File: a\n@@\n-b\n+B\n*** End Patch";
    let mut dir = files(&[("a", "a\r\nb\r\nc\r\n")]);
    apply(&mut dir, patch, false).unwrap();
    assert_eq!(dir["a"], "a\r\nB\r\nc\r\n");
    let mut dir = files(&[("a", "a\r\nb\r\nc\r\n")]);
    apply_with(&mut dir, patch, UpdateMode::NormalizeToLf, false).unwrap();
    assert_eq!(dir["a"], "a\nB\nc\n");
}

#[test]
fn patch_grammar() {
    let p = parse_patch(
        "*** Begin Patch\n*** Update File: f\n@@ fn x\n ctx\n-old\n+new\n*** End of File\n*** End Patch",
    )
    .unwrap();
    match &p.hunks[..] {
        [Hunk::UpdateFile { path, move_path, chunks }] => {
            assert_eq!(path, "f");
            assert!(move_path.is_none());
            assert_eq!(chunks.len(), 1);
            assert_eq!(chunks[0].change_context.as_deref(), Some("fn x"));
            assert_eq!(chunks[0].old_lines, vec!["ctx", "old"]);
            assert_eq!(chunks[0].new_lines, vec!["ctx", "new"]);
            assert!(chunks[0].is_end_of_file);
        }
        h => panic!("{h:?}"),
    }
    assert!(parse_patch("no patch").is_err());
    assert!(parse_patch("*** Begin Patch\n*** Frobnicate: f\n*** End Patch").is_err());
}

#[test]
fn patch_arguments_are_checked() {
    let args = |patch: &str| Json::Obj(vec![("patch".to_string(), Json::Str(patch.to_string()))]);
    assert_eq!(plan_patch(&args("")).unwrap_err().code, "PARSE_ERROR");
    assert_eq!(plan_patch(&args("p")).unwrap(), ("p".to_string(), false));
    let ws = parts_of("/w");
    assert!(check_inside("../x", &parts_of("/x"), &ws).is_err());
    assert!(check_inside("x", &parts_of("/w/x"), &ws).is_ok());
}

#[test]
fn a_patch_in_a_here_document_says_the_same() {
    let bare = "*** Begin Patch\n*** Add File: f\n+x\n*** End Patch\n";
    let broken = "*** Begin Patch\n*** Frobnicate: f\n*** End Patch";
    for opener in ["<<EOF", "<<'EOF'", "<<\"EOF\""] {
        let wrapped = |p: &str| format!("{opener}\n{}\nEOF", p.trim());
        assert_eq!(parse_patch(&wrapped(bare)), parse_patch(bare));
        assert!(parse_patch(&wrapped(bare)).is_ok());
        assert_eq!(parse_patch(&wrapped(broken)), parse_patch(broken));
    }
}
