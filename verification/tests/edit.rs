use qaqh_workspace::edit::exact::{Score, Share};
use qaqh_workspace::edit::handler::{exec_edit, plan_edit, EditDecision, EditPlan};
use qaqh_workspace::edit::hunk::Hunk;
use qaqh_workspace::edit::matching::T3_THRESHOLD;
use qaqh_workspace::edit::read::{read_path, FileRead, ReadReply};
use qaqh_workspace::edit::report::hunk_report_json;
use qaqh_workspace::edit::transaction::{run_edit, FileOutcome, Mode};
use qaqh_workspace::edit::view::FileView;
use qaqh_workspace::file_shared::content_hash;
use qaqh_workspace::json::Json;
use qaqh_workspace::refusal::Refusal;

fn from_value(v: serde_json::Value) -> Json {
    match v {
        serde_json::Value::Null => Json::Null,
        serde_json::Value::Bool(b) => Json::Bool(b),
        serde_json::Value::Number(n) => match (n.as_u64(), n.as_i64()) {
            (Some(u), _) => Json::Uint(u),
            (None, Some(i)) => Json::Int(i),
            _ => Json::Float(n.to_string()),
        },
        serde_json::Value::String(s) => Json::Str(s),
        serde_json::Value::Array(a) => Json::Arr(a.into_iter().map(from_value).collect()),
        serde_json::Value::Object(o) => {
            Json::Obj(o.into_iter().map(|(k, v)| (k, from_value(v))).collect())
        }
    }
}

fn json(text: &str) -> Json {
    from_value(serde_json::from_str(text).unwrap())
}

fn rp(old: &str, new: &str) -> Hunk {
    rp_with(old, new, "", "", false, None)
}

fn rp_with(old: &str, new: &str, before: &str, after: &str, all: bool, hint: Option<usize>) -> Hunk {
    Hunk::Replace {
        old: old.to_string(),
        new: new.to_string(),
        context_before: before.to_string(),
        context_after: after.to_string(),
        replace_all: all,
        hint_line: hint,
    }
}

fn rp_all(old: &str, new: &str) -> Hunk {
    rp_with(old, new, "", "", true, None)
}

fn rp_ctx(old: &str, new: &str, before: &str, after: &str) -> Hunk {
    rp_with(old, new, before, after, false, None)
}

fn rp_hint(old: &str, new: &str, hint: usize) -> Hunk {
    rp_with(old, new, "", "", false, Some(hint))
}

fn edit(content: &str, hunks: &[Hunk]) -> FileOutcome {
    run_edit(content, hunks, Vec::new(), Mode::Strict)
}

fn err_code(o: &FileOutcome) -> &str {
    o.code.as_deref().unwrap_or("")
}

/// One file, and the calls made on it.
struct Disk {
    bytes: Option<Vec<u8>>,
}

impl Disk {
    fn holding(text: &str) -> Disk {
        Disk { bytes: Some(text.as_bytes().to_vec()) }
    }

    fn empty() -> Disk {
        Disk { bytes: None }
    }

    fn text(&self) -> String {
        String::from_utf8(self.bytes.clone().unwrap()).unwrap()
    }

    fn read(&self) -> FileRead {
        match &self.bytes {
            None => FileRead::Missing,
            Some(b) => match String::from_utf8(b.clone()) {
                Ok(s) => FileRead::Text(s),
                Err(_) => FileRead::NotUtf8,
            },
        }
    }

    fn exec(&mut self, args: &str) -> EditDecision {
        match plan_edit(&json(args)).unwrap() {
            EditPlan::Edit(call) => {
                let d = exec_edit(call, self.read());
                if let EditDecision::Commit { content, .. } = &d {
                    self.bytes = Some(content.as_bytes().to_vec());
                }
                d
            }
            EditPlan::Read { .. } => panic!("a read"),
        }
    }

    fn look(&self, args: &str) -> Result<ReadReply, Refusal> {
        let args = json(args);
        match plan_edit(&args)? {
            EditPlan::Read { path } => read_path(&path, &args, self.read()),
            EditPlan::Edit(_) => panic!("an edit"),
        }
    }
}

fn committed(d: &EditDecision) -> &FileOutcome {
    match d {
        EditDecision::Commit { outcome, .. } => outcome,
        _ => panic!("not committed: {d:?}"),
    }
}

fn code_of(r: Result<ReadReply, Refusal>) -> String {
    r.unwrap_err().code
}

#[test]
fn replace_all_substitutes_every_exact_occurrence() {
    let out = edit("a\nx\nb\nx\nc\n", &[rp_all("x", "X")]);
    assert_eq!(out.edited.as_deref(), Some("a\nX\nb\nX\nc\n"));
    assert_eq!(out.reports.len(), 1);
    assert_eq!(out.reports[0].tier, Some(1));
    assert_eq!(
        out.reports[0].note.as_deref(),
        Some("2 location(s) replaced")
    );
}

#[test]
fn replace_all_without_exact_match_rejects() {
    let out = edit("a\n    x\nb\n", &[rp_all("x", "X")]);
    assert_eq!(err_code(&out), "NO_MATCH");
    assert!(out.edited.is_none());
}

#[test]
fn replace_all_coexists_with_other_hunks() {
    let out = edit("a\nx\nb\nx\nc\n", &[rp_all("x", "X"), rp("b", "B")]);
    assert_eq!(out.edited.as_deref(), Some("a\nX\nB\nX\nc\n"));
}

#[test]
fn exact_match_unique_hit() {
    let out = edit("a\nb\nc\n", &[rp("b", "B")]);
    assert_eq!(out.edited.as_deref(), Some("a\nB\nc\n"));
    assert_eq!(out.reports[0].tier, Some(1));
    assert_eq!(out.reports[0].line_range, Some((2, 2)));
}

#[test]
fn indent_shape_matches_on_tier2() {
    let content = "fn outer() {\n    fn inner() {\n        let x = 1;\n    }\n}\n";
    let out = edit(content, &[rp("let x = 1;", "let x = 2;")]);
    assert_eq!(
        out.edited.as_deref(),
        Some("fn outer() {\n    fn inner() {\n        let x = 2;\n    }\n}\n")
    );
    assert_eq!(out.reports[0].tier, Some(2));
    assert_eq!(out.reports[0].note.as_deref(), Some("indent-shape"));
}

#[test]
fn tier3_auto_applies_when_score_and_margin_pass() {
    let content = "fn main() {\n    let foo = 1;\n    println!(\"{}\", foo);\n}\n";
    let out = edit(content, &[rp("let fo0 = 1;", "let foo = 1;")]);
    assert_eq!(
        out.edited.as_deref(),
        Some("fn main() {\n    let foo = 1;\n    println!(\"{}\", foo);\n}\n")
    );
    assert_eq!(out.reports[0].tier, Some(3));
    assert!(out.reports[0].score.unwrap() >= T3_THRESHOLD);
}

#[test]
fn a_score_that_is_the_threshold_is_taken() {
    let out = edit("012345678x\nabcdeX", &[rp_ctx("abcdef", "done", "0123456789", "")]);
    assert_eq!(out.edited.as_deref(), Some("012345678x\ndone"));
    assert_eq!(out.reports[0].tier, Some(3));
    assert_eq!(out.reports[0].score, Some(T3_THRESHOLD));
    assert_eq!(out.reports[0].note.as_deref(), Some("similarity 0.85"));
    let out = edit("012345678xy\nabcdeX", &[rp_ctx("abcdef", "done", "0123456789", "")]);
    assert!(out.edited.is_none());
    let said = format!("{out:?}");
    assert!(said.contains("best score 0.84 is below threshold 0.85"), "{said}");
}

#[test]
fn scores_are_ordered_as_fractions() {
    let whole = Share { num: 1, den: 1 };
    let none = Share { num: 0, den: 1 };
    let score = |num: u128, den: u128, before: Share, weight: u64| Score {
        old: Share { num, den },
        before,
        after: none,
        weight,
    };
    let third = score(1, 3, none, 3);
    assert_eq!(third.in_billionths(), 333_333_333);
    assert!(score(1_000_000_000_001, 3_000_000_000_000, none, 3).is_above(&third));
    assert!(!third.is_above(&score(2, 6, none, 3)));
    assert_eq!(score(1, 1, none, 3).in_billionths(), 1_000_000_000);
    assert_eq!(score(0, 9, whole, 4).in_billionths(), 250_000_000);
    let high = score(17, 20, none, 3);
    assert!(high.is_high() && !score(849_999_999_999, 1_000_000_000_000, none, 3).is_high());
    assert!(score(19, 20, none, 3).is_clearly_above(&high));
    assert!(!score(18, 20, none, 3).is_clearly_above(&high));
    assert!(!score(1, 100, none, 3).is_any() && score(2, 199, none, 3).is_any());
    let long = u128::from(u64::MAX);
    assert!(score(long, 2 * long, none, 3).is_above(&score(long - 1, 2 * long, none, 3)));
}

#[test]
fn lines_start_where_they_do_in_bytes_and_in_characters() {
    let view = FileView::new("ab\nc\u{e9}\u{20ac}\n\nz");
    assert_eq!(view.char_starts, vec![0, 3, 7, 8, 9]);
    assert_eq!(view.byte_starts, vec![0, 3, 10, 11, 12]);
    assert_eq!(FileView::new("").byte_starts, vec![0, 0]);
}

#[test]
fn tier3_rejects_when_margin_insufficient() {
    let content = "let alpha_value = 1;\nlet alpho_value = 1;\n";
    let out = edit(content, &[rp("let alphu_value = 1;", "let x = 1;")]);
    assert!(out.edited.is_none());
    assert_eq!(err_code(&out), "NO_MATCH");
    assert!(out.reports[0].candidates.as_ref().unwrap().len() >= 2);
}

#[test]
fn context_before_disambiguates_repeated_pattern() {
    let content = "fn a() {\n    return Ok(());\n}\nfn b() {\n    return Ok(());\n}\nfn c() {\n    return Ok(());\n}\n";
    let out = edit(
        content,
        &[rp_ctx("return Ok(());", "return Err(());", "fn b() {", "")],
    );
    assert_eq!(
        out.edited.as_deref(),
        Some(
            "fn a() {\n    return Ok(());\n}\nfn b() {\n    return Err(());\n}\nfn c() {\n    return Ok(());\n}\n"
        )
    );
    assert_eq!(out.reports[0].tier, Some(2));
}

#[test]
fn two_hunks_apply_independently() {
    let out = edit("a\nb\nc\nd\n", &[rp("a", "A"), rp("c", "C")]);
    assert_eq!(out.edited.as_deref(), Some("A\nb\nC\nd\n"));
    assert_eq!(out.reports.len(), 2);
}

#[test]
fn overlapping_hunks_rejected_atomically() {
    let content = "a\nb\nc\n";
    let before = content.to_string();
    let out = edit(
        content,
        &[rp("a\nb\nc", "X"), rp("a\nb", "Y")], // 第二个区间严格内部 → 冲突
    );
    assert!(out.edited.is_none());
    assert_eq!(err_code(&out), "OVERLAPPING_HUNKS");
    assert_eq!(before, "a\nb\nc\n");
}

#[test]
fn empty_file_prepend_and_append() {
    let out = edit(
        "",
        &[Hunk::PrependFile {
            new: "hello\n".into(),
        }],
    );
    assert_eq!(out.edited.as_deref(), Some("hello\n"));
    let out = edit(
        "",
        &[Hunk::AppendFile {
            new: "world\n".into(),
        }],
    );
    assert_eq!(out.edited.as_deref(), Some("world\n"));
}

#[test]
fn append_file_respects_missing_trailing_newline() {
    let out = edit("a\nb", &[Hunk::AppendFile { new: "c\n".into() }]);
    assert_eq!(out.edited.as_deref(), Some("a\nb\nc\n"));
}

#[test]
fn empty_old_without_context_is_underspecified() {
    let out = edit("a\nb\n", &[rp("", "X\n")]);
    assert_eq!(err_code(&out), "UNDERSPECIFIED");
    assert!(out.edited.is_none());
}

#[test]
fn all_hunk_failures_reported_at_once() {
    let out = edit("a\nb\nc\n", &[rp("a", "A"), rp("zzz", "Z"), rp("", "P")]);
    assert!(out.edited.is_none());
    assert_eq!(out.reports.len(), 3);
    assert_eq!(out.reports[0].status, "ok");
    assert_eq!(out.reports[1].status, "error");
    assert_eq!(out.reports[2].status, "error");
    assert_eq!(err_code(&out), "NO_MATCH");
}

#[test]
fn three_hunks_apply_head_mid_tail() {
    let out = edit(
        "a\nb\nc\nd\ne\n",
        &[rp("a", "A"), rp("c", "C"), rp("e", "E")],
    );
    assert_eq!(out.edited.as_deref(), Some("A\nb\nC\nd\nE\n"));
}

#[test]
fn no_match_candidates_carry_pattern_diff() {
    let out = edit(
        "let alpha_value = 1;\nlet alpho_value = 1;\n",
        &[rp("let alphu_value = 1;", "let x = 1;")],
    );
    let cands = out.reports[0].candidates.as_ref().unwrap();
    assert!(!cands.is_empty());
    let diff = &cands[0].diff;
    assert!(diff.contains("- let alphu_value = 1;"), "diff: {diff}");
    assert!(
        diff.contains("+ let alpha_value = 1;") || diff.contains("+ let alpho_value = 1;"),
        "diff: {diff}"
    );
}

#[test]
fn no_match_detail_explains_margin_shortfall() {
    let out = edit(
        "let alpha_value = 1;\nlet alpho_value = 1;\n",
        &[rp("let alphu_value = 1;", "let x = 1;")],
    );
    let detail = out.reports[0].detail.as_deref().unwrap_or("");
    assert!(detail.contains("margin"), "detail: {detail}");
    assert!(detail.contains("context_before"), "detail: {detail}");
}

#[test]
fn no_match_detail_explains_total_mismatch() {
    let out = edit("a\nb\nc\n", &[rp("zzzz", "x")]);
    let detail = out.reports[0].detail.as_deref().unwrap_or("");
    assert!(
        detail.contains("no window had any similarity"),
        "detail: {detail}"
    );
}

#[test]
fn multibyte_exact_replace() {
    let content = "fn main() {\n    // 处理用户输入\n    let x = 1;\n}\n";
    let out = edit(content, &[rp("    // 处理用户输入", "    // 处理用户请求")]);
    assert_eq!(
        out.edited.as_deref(),
        Some("fn main() {\n    // 处理用户请求\n    let x = 1;\n}\n")
    );
    assert_eq!(out.reports[0].tier, Some(1));
}

#[test]
fn multibyte_multi_hunk_reverse_apply() {
    let content = "// 配置说明\nlet a = 1;\n// 环境变量\nlet b = 2;\n";
    let out = edit(
        content,
        &[
            rp("// 配置说明", "// 配置文档"),
            rp("let b = 2;", "let b = 3;"),
            rp("// 环境变量", "// 环境参数"),
        ],
    );
    assert_eq!(
        out.edited.as_deref(),
        Some("// 配置文档\nlet a = 1;\n// 环境参数\nlet b = 3;\n")
    );
    assert_eq!(err_code(&out), "");
}

#[test]
fn multibyte_append_no_trailing_newline() {
    let content = "// 中文内容";
    let out = edit(
        content,
        &[Hunk::AppendFile {
            new: "// 追加行".to_string(),
        }],
    );
    assert_eq!(out.edited.as_deref(), Some("// 中文内容\n// 追加行"));
}

#[test]
fn multibyte_replace_with_trailing_newline() {
    let content = "第一行\n第二行\n第三行\n";
    let out = edit(content, &[rp("第二行\n", "第二行（改）\n")]);
    assert_eq!(
        out.edited.as_deref(),
        Some("第一行\n第二行（改）\n第三行\n")
    );
}

#[test]
fn shifts_are_computed_for_line_level_edits() {
    let content = "a\nb\nc\nd\ne\n";
    let outcome = edit(content, &[rp("b", "b1\nb2"), rp("d\ne", "e")]);
    assert!(outcome.edited.is_some(), "strict edit should apply");
    let mut shifts = outcome.shifts.clone();
    shifts.sort(); // 应用序 = 倒序（位置大者先）；断言与顺序无关
    assert_eq!(shifts, vec![(2, 1), (4, -1)]);
}

#[test]
fn inline_replace_has_zero_shift() {
    let content = "aaa\nbbb\nccc\n";
    let outcome = edit(content, &[rp("bbb", "BBB")]);
    assert!(outcome.edited.is_some());
    assert_eq!(outcome.shifts, vec![(2, 0)]);
}

#[test]
fn failed_edit_has_empty_shifts() {
    let content = "aaa\nbbb\n";
    let outcome = edit(content, &[rp("zzz", "yyy")]);
    assert!(outcome.edited.is_none());
    assert!(outcome.shifts.is_empty());
}

#[test]
fn hint_line_disambiguates_repeated_content() {
    let content = "a\nb\nx\nc\nd\ne\nf\ng\nh\ni\nj\nk\nl\nx\nm\n";
    let out = edit(content, &[rp_hint("x", "X", 14)]);
    assert!(out.edited.is_some(), "hint window should disambiguate");
    assert_eq!(
        out.edited.as_deref(),
        Some("a\nb\nx\nc\nd\ne\nf\ng\nh\ni\nj\nk\nl\nX\nm\n")
    );
    let r = &out.reports[0];
    assert_eq!(r.status, "ok");
    assert_eq!(r.tier, Some(4));
    assert_eq!(r.used_hint, Some(14));
    assert_eq!(r.line_range, Some((14, 14)));
}

#[test]
fn hint_line_window_still_ambiguous_keeps_error() {
    let content = "x\nx\ny\n";
    let out = edit(content, &[rp_hint("x", "X", 2)]);
    assert!(out.edited.is_none());
    assert_eq!(err_code(&out), "AMBIGUOUS_MATCH");
    assert_eq!(out.reports[0].used_hint, None);
}

#[test]
fn hint_line_miss_keeps_original_error() {
    let content = "a\nx\nb\nc\nd\ne\nf\ng\nh\ni\nj\nk\nl\nm\nn\no\np\nq\nr\ns\nt\nu\nv\nw\nx\ny\n";
    let out = edit(content, &[rp_hint("x", "X", 13)]);
    assert!(out.edited.is_none());
    assert_eq!(err_code(&out), "AMBIGUOUS_MATCH");
}

#[test]
fn hint_line_disambiguates_anchor_insert() {
    let content = "a\nb\nx\nc\nd\ne\nf\ng\nh\ni\nj\nk\nl\nx\nm\n";
    let out = edit(content, &[rp_hint("x", "INS", 14)]);
    assert!(out.edited.is_some(), "hint should disambiguate");
    assert_eq!(
        out.edited.as_deref(),
        Some("a\nb\nx\nc\nd\ne\nf\ng\nh\ni\nj\nk\nl\nINS\nm\n")
    );
    assert_eq!(out.reports[0].used_hint, Some(14));
}

#[test]
fn no_hint_line_keeps_default_behavior() {
    let content = "a\nx\nb\nx\n";
    let out = edit(content, &[rp("x", "X")]);
    assert!(out.edited.is_none());
    assert_eq!(err_code(&out), "AMBIGUOUS_MATCH");
}

#[test]
fn hint_line_zero_is_treated_as_one() {
    let content = "a\nx\nb\nc\nd\ne\nf\ng\nh\ni\nj\nk\nl\nm\nn\nx\n";
    let out = edit(content, &[rp_hint("x", "X", 0)]);
    assert!(out.edited.is_some());
    assert_eq!(
        out.edited.as_deref(),
        Some(content.replacen("x", "X", 1).as_str())
    );
    assert_eq!(out.reports[0].line_range, Some((2, 2)));
    assert_eq!(out.reports[0].used_hint, Some(1));
}

#[test]
fn crlf_in_request_normalized_with_notes() {
    let mut notes = Vec::new();
    let hunk = Hunk::parse(
        &json(r#"{"kind": "replace", "old": "a\r\nb", "new": "A\nB"}"#),
        &mut notes,
    )
    .unwrap();
    let out = run_edit("a\nb\n", &[hunk], notes, Mode::Strict);
    assert_eq!(out.edited.as_deref(), Some("A\nB\n"));
    assert_eq!(out.reports[0].status, "ok");
    assert!(out.notes.iter().any(|n| n.contains("CRLF")));
}

#[test]
fn unknown_hunk_kind_rejected() {
    let mut notes = Vec::new();
    let err = Hunk::parse(&json(r#"{"kind": "magic", "new": "x"}"#), &mut notes).unwrap_err();
    assert!(err.contains("unknown hunk kind"));
}

#[test]
fn crlf_file_roundtrip_via_execute() {
    let mut disk = Disk::holding("a\r\nb\r\n");
    let hash = content_hash("a\nb\n");
    let d = disk.exec(&format!(
        r#"{{"path": "crlf.txt", "expected_hash": "{hash}",
            "hunks": [{{"kind": "replace", "old": "b", "new": "c"}}]}}"#
    ));
    committed(&d);
    assert_eq!(disk.text(), "a\r\nc\r\n");
}

#[test]
fn hash_mismatch_rejected_with_current_content() {
    let mut disk = Disk::holding("a\nb\n");
    let d = disk.exec(
        r#"{"path": "f.txt", "expected_hash": "deadbeef",
            "hunks": [{"kind": "replace", "old": "a", "new": "A"}]}"#,
    );
    match &d {
        EditDecision::Stale { text, hint, current_hash, current_content } => {
            assert!(text.contains("HASH_MISMATCH"));
            assert!(current_content.contains("a\nb\n"));
            assert_eq!(current_hash, &content_hash("a\nb\n"));
            assert!(hint.is_some());
        }
        _ => panic!("{d:?}"),
    }
    assert_eq!(disk.text(), "a\nb\n");
}

#[test]
fn edit_existing_file_without_hash() {
    let mut disk = Disk::holding("x\n");
    let d = disk.exec(r#"{"path": "f.txt", "hunks": [{"kind": "replace", "old": "x", "new": "y"}]}"#);
    committed(&d);
    assert_eq!(disk.text(), "y\n");
}

#[test]
fn create_new_file_with_prepend() {
    let mut disk = Disk::empty();
    let d = disk.exec(r#"{"path": "new.txt", "hunks": [{"kind": "prepend_file", "new": "hello\n"}]}"#);
    committed(&d);
    assert_eq!(disk.text(), "hello\n");
}

#[test]
fn binary_file_rejected_as_not_utf8() {
    let mut disk = Disk { bytes: Some(vec![0xff, 0xfe, 0x00, 0x01]) };
    let d = disk.exec(
        r#"{"path": "bin.dat", "expected_hash": "whatever",
            "hunks": [{"kind": "replace", "old": "x", "new": "y"}]}"#,
    );
    match d {
        EditDecision::Refuse(r) => assert_eq!(r.code, "NOT_UTF8_TEXT"),
        _ => panic!("{d:?}"),
    }
}

#[test]
fn new_hash_chains_into_next_call() {
    let mut disk = Disk::holding("a\nb\n");
    let hash = content_hash("a\nb\n");
    let d1 = disk.exec(&format!(
        r#"{{"path": "f.txt", "expected_hash": "{hash}",
            "hunks": [{{"kind": "replace", "old": "a", "new": "A"}}]}}"#
    ));
    let new_hash = committed(&d1).new_hash.clone().unwrap();
    assert!(!new_hash.is_empty());
    let d2 = disk.exec(&format!(
        r#"{{"path": "f.txt", "expected_hash": "{new_hash}",
            "hunks": [{{"kind": "replace", "old": "b", "new": "B"}}]}}"#
    ));
    committed(&d2);
    assert_eq!(disk.text(), "A\nB\n");
}

#[test]
fn replace_on_missing_file_hints_creation() {
    let mut disk = Disk::empty();
    let d = disk.exec(r#"{"path": "ghost.txt", "hunks": [{"kind": "replace", "old": "x", "new": "y"}]}"#);
    match &d {
        EditDecision::Reject { code, hint, .. } => {
            assert_eq!(code, "NO_MATCH");
            let hint = hint.as_deref().unwrap_or("");
            assert!(hint.contains("does not exist"), "hint should guide creation, got: {hint}");
        }
        _ => panic!("{d:?}"),
    }
    assert!(disk.bytes.is_none());
}

#[test]
fn hint_line_via_json_parses_and_reports() {
    let mut disk = Disk::holding("a\nb\nx\nc\nd\ne\nf\ng\nh\ni\nj\nk\nl\nx\nm\n");
    let d = disk.exec(
        r#"{"path": "h.txt",
            "hunks": [{"kind": "replace", "old": "x", "new": "X", "hint_line": 14}]}"#,
    );
    let data = hunk_report_json(&committed(&d).reports[0]);
    assert_eq!(disk.text(), "a\nb\nx\nc\nd\ne\nf\ng\nh\ni\nj\nk\nl\nX\nm\n");
    assert_eq!(data.get_u64("used_hint"), Some(14));
    assert_eq!(data.get_u64("actual_line"), Some(14));
    assert_eq!(data.get_u64("line_offset"), Some(0));
}

#[test]
fn hint_line_zero_via_json_is_normalized_to_one() {
    let mut disk = Disk::holding("a\nx\nb\nc\nd\ne\nf\ng\nh\ni\nj\nk\nl\nm\nn\nx\n");
    let d = disk.exec(
        r#"{"path": "h0.txt",
            "hunks": [{"kind": "replace", "old": "x", "new": "X", "hint_line": 0}]}"#,
    );
    let data = hunk_report_json(&committed(&d).reports[0]);
    assert_eq!(disk.text(), "a\nX\nb\nc\nd\ne\nf\ng\nh\ni\nj\nk\nl\nm\nn\nx\n");
    assert_eq!(data.get_u64("used_hint"), Some(1));
    assert_eq!(data.get_u64("actual_line"), Some(2));
}

#[test]
fn partial_edit_writes_what_could_be_placed() {
    let mut disk = Disk::holding("a\nb\nc\n");
    let d = disk.exec(
        r#"{"path": "f", "mode": "partial", "hunks": [
            {"kind": "replace", "old": "a", "new": "A"},
            {"kind": "replace", "old": "zzzz", "new": "Z"}]}"#,
    );
    match &d {
        EditDecision::Commit { complete, applied, content, outcome, .. } => {
            assert!(!complete);
            assert_eq!(*applied, 1);
            assert_eq!(content, "A\nb\nc\n");
            assert_eq!(outcome.code.as_deref(), Some("NO_MATCH"));
            assert_eq!(outcome.reports[1].code.as_deref(), Some("NO_MATCH"));
        }
        _ => panic!("{d:?}"),
    }
}

#[test]
fn partial_edit_that_places_nothing_writes_nothing() {
    let out = run_edit("a\n", &[rp("zzzz", "Z")], Vec::new(), Mode::Partial);
    assert!(out.edited.is_none());
    assert_eq!(err_code(&out), "NO_MATCH");
}

#[test]
fn partial_edit_still_refuses_overlaps() {
    let out = run_edit("a\nb\nc\n", &[rp("a\nb\nc", "X"), rp("a\nb", "Y")], Vec::new(), Mode::Partial);
    assert!(out.edited.is_none());
    assert_eq!(err_code(&out), "OVERLAPPING_HUNKS");
}

#[test]
fn overwrite_replaces_the_whole_file() {
    let mut disk = Disk::holding("old\n");
    let d = disk.exec(r#"{"path": "f", "hunks": [{"kind": "overwrite", "new": "new\n"}]}"#);
    assert_eq!(committed(&d).shifts, vec![(1, 0)]);
    assert_eq!(disk.text(), "new\n");
    assert_eq!(qaqh_workspace::edit::report::journal_op(&[]), "overwrite");
    assert_eq!(qaqh_workspace::edit::report::journal_op(&[(1, 0)]), "replace");
}

#[test]
fn overwrite_must_stand_alone() {
    let out = edit("a\n", &[Hunk::Overwrite { new: "x".to_string() }, rp("a", "b")]);
    assert_eq!(err_code(&out), "OVERWRITE_EXCLUSIVE");
    assert!(out.edited.is_none());
    assert!(out.reports.is_empty());
}

#[test]
fn anchored_inserts_go_before_and_after_their_line() {
    let out = edit(
        "a\nb\nc\n",
        &[
            Hunk::InsertAfter { anchor: "b".to_string(), new: "after\n".to_string(), hint_line: None },
            Hunk::InsertBefore { anchor: "a".to_string(), new: "before\n".to_string(), hint_line: None },
        ],
    );
    assert_eq!(out.edited.as_deref(), Some("before\na\nb\nafter\nc\n"));
}

#[test]
fn context_alone_places_an_insertion() {
    let out = edit("a\nb\n", &[rp_ctx("", "X\n", "a", "")]);
    assert_eq!(out.edited.as_deref(), Some("a\nX\nb\n"));
}

fn inline(anchor: &str, old: &str, new: &str, all: bool, regex: bool) -> Hunk {
    Hunk::ReplaceInline {
        anchor: anchor.to_string(),
        old: old.to_string(),
        new: new.to_string(),
        replace_all: all,
        regex,
        hint_line: None,
    }
}

#[test]
fn inline_replacement_stays_in_its_window() {
    let text = "x x\ny x\nx x\n";
    let first = edit(text, &[inline("y x", "x", "Z", false, false)]);
    assert_eq!(first.edited.as_deref(), Some("x x\ny Z\nx x\n"));
    let all = edit("a a a\nb\n", &[inline("a a a", "a", "A", true, false)]);
    assert_eq!(all.edited.as_deref(), Some("A A A\nb\n"));
    let none = edit(text, &[inline("y x", "q", "Z", false, false)]);
    assert_eq!(err_code(&none), "NO_MATCH");
}

#[test]
fn inline_replacement_takes_regular_expressions() {
    let out = edit("v = 12, 34\n", &[inline("v = 12, 34", "([0-9]+), ([0-9]+)", "$2, $1", false, true)]);
    assert_eq!(out.edited.as_deref(), Some("v = 34, 12\n"));
    let every = edit("a1b2\n", &[inline("a1b2", "[0-9]", "#", true, true)]);
    assert_eq!(every.edited.as_deref(), Some("a#b#\n"));
    let unmatched = edit("ab\n", &[inline("ab", "[0-9]", "#", true, true)]);
    assert_eq!(err_code(&unmatched), "NO_MATCH");
    let bad = edit("ab\n", &[inline("ab", "(", "#", false, true)]);
    assert_eq!(err_code(&bad), "INVALID_REGEX");
}

#[test]
fn reading_through_the_editor_gives_content_and_hash() {
    let disk = Disk::holding("a\r\nb\r\n");
    let r = disk.look(r#"{"path": "f"}"#).unwrap();
    assert_eq!(r.text, "a\nb\n");
    assert_eq!(r.hash, content_hash("a\nb\n"));
    assert_eq!(r.total_lines, 2);
    assert!(!r.truncated);
    assert_eq!(disk.look(r#"{"path": "f", "hunks": []}"#).unwrap(), r);
    assert_eq!(code_of(Disk::empty().look(r#"{"path": "f"}"#)), "FILE_NOT_FOUND");
}

#[test]
fn reading_a_range_numbers_its_lines() {
    let disk = Disk::holding("a\nb\nc\nd\n");
    let r = disk.look(r#"{"path": "f", "start_line": 2, "end_line": 3}"#).unwrap();
    assert_eq!(r.text, "L2: b\nL3: c");
    assert_eq!(r.shown, Some((2, 3)));
    assert_eq!(r.hash, content_hash("a\nb\nc\nd\n"));
    let tail = disk.look(r#"{"path": "f", "start_line": 3}"#).unwrap();
    assert_eq!(tail.text, "L3: c\nL4: d");
}

#[test]
fn reading_refuses_bad_ranges() {
    let disk = Disk::holding("a\nb\n");
    let far = disk.look(r#"{"path": "f", "start_line": 9}"#).unwrap_err();
    assert_eq!(far.code, "LINE_OUT_OF_RANGE");
    assert_eq!(far.total_lines, Some(2));
    assert_eq!(far.hash, Some(content_hash("a\nb\n")));
    assert_eq!(code_of(disk.look(r#"{"path": "f", "start_line": 2, "end_line": 1}"#)), "PARSE_ERROR");
    assert_eq!(code_of(disk.look(r#"{"path": "f", "start_line": 0}"#)), "PARSE_ERROR");
    let long = Disk::holding(&"x\n".repeat(3000));
    assert_eq!(
        code_of(long.look(r#"{"path": "f", "start_line": 1, "end_line": 3000}"#)),
        "RANGE_TOO_LARGE"
    );
}

#[test]
fn reading_around_an_anchor() {
    let disk = Disk::holding("a\nb\nc\nd\ne\n");
    let r = disk
        .look(r#"{"path": "f", "anchor": "c", "context_before": 1, "context_after": 1}"#)
        .unwrap();
    assert_eq!(r.text, "L2: b\nL3: c\nL4: d");
    let found = r.found.unwrap();
    assert_eq!((found.anchor_line, found.anchor_lines, found.tier), (3, 1, 1));
    let twice = Disk::holding("x\ny\nx\n");
    let refusal = twice.look(r#"{"path": "f", "anchor": "x"}"#).unwrap_err();
    assert_eq!(refusal.code, "ANCHOR_AMBIGUOUS");
    assert_eq!(refusal.candidates.unwrap().len(), 2);
    assert_eq!(code_of(twice.look(r#"{"path": "f", "anchor": "qqqq"}"#)), "NO_MATCH");
}

#[test]
fn malformed_edits_are_refused_before_the_file_is_read() {
    let code = |args: &str| plan_edit(&json(args)).unwrap_err().code;
    assert_eq!(code(r#"{"hunks": []}"#), "PARSE_ERROR");
    assert_eq!(code(r#"{"path": "f", "hunks": [{"kind": "magic"}]}"#), "PARSE_ERROR");
    assert_eq!(
        code(r#"{"path": "f", "mode": "loose", "hunks": [{"kind": "overwrite", "new": ""}]}"#),
        "PARSE_ERROR"
    );
}

#[test]
fn report_data_carries_scores_and_candidates() {
    let out = edit("let alpha_value = 1;\nlet alpho_value = 1;\n", &[rp("let alphu_value = 1;", "let x = 1;")]);
    let data = hunk_report_json(&out.reports[0]);
    assert_eq!(data.get_str("status"), Some("error"));
    assert_eq!(data.get_str("code"), Some("NO_MATCH"));
    let cands = data.get_array("candidates").unwrap();
    assert_eq!(cands[0].get("score"), Some(&Json::Float("0.950000000".to_string())));
    assert_eq!(cands[0].get_u64("tier"), Some(3));
    assert_eq!(data.get("used_hint"), None);
}
