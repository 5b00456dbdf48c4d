use std::collections::HashMap;

use qaqh_workspace::copy_range::{plan_copy, render_copy, run_copy_range, CopyRefusal, Mode};
use qaqh_workspace::edit::read::FileRead;
use qaqh_workspace::json::Json;

fn setup(files: &[(&str, &str)]) -> HashMap<String, String> {
    files.iter().map(|(n, c)| (n.to_string(), c.to_string())).collect()
}

fn read(dir: &HashMap<String, String>, path: &str) -> FileRead {
    match dir.get(path) {
        Some(t) => FileRead::Text(t.clone()),
        None => FileRead::Missing,
    }
}

fn shown(e: CopyRefusal) -> String {
    format!("{}: {}", e.code, e.message)
}

fn run(
    dir: &mut HashMap<String, String>,
    src: &str,
    start: &str,
    end: Option<&str>,
    tgt: &str,
    anchor: Option<&str>,
    mode: &str,
) -> Result<String, String> {
    let mut pairs = vec![
        ("source_path".to_string(), Json::Str(src.to_string())),
        ("source_start".to_string(), Json::Str(start.to_string())),
        ("target_path".to_string(), Json::Str(tgt.to_string())),
        ("mode".to_string(), Json::Str(mode.to_string())),
    ];
    if let Some(e) = end {
        pairs.push(("source_end".to_string(), Json::Str(e.to_string())));
    }
    if let Some(a) = anchor {
        pairs.push(("target_anchor".to_string(), Json::Str(a.to_string())));
    }
    let call = plan_copy(&Json::Obj(pairs)).map_err(shown)?;
    let r = run_copy_range(&call, &read(dir, src), &read(dir, tgt), src == tgt).map_err(shown)?;
    let text = render_copy(&call, &r);
    dir.insert(tgt.to_string(), r.content);
    Ok(text)
}

#[test]
fn copies_range_to_append() {
    let mut dir = setup(&[
        (
            "src.rs",
            "fn a() {}\nfn target() {\n    body\n}\nfn c() {}\n",
        ),
        ("dst.rs", "// header\n"),
    ]);
    let out = run(
        &mut dir,
        "src.rs",
        "fn target() {",
        Some("}"),
        "dst.rs",
        None,
        "append",
    )
    .unwrap();
    assert!(out.starts_with("[OK] copy_range"));
    assert!(out.contains("3 line(s)"));
    assert_eq!(
        dir["dst.rs"],
        "// header\nfn target() {\n    body\n}\n"
    );
}

#[test]
fn copies_single_line_without_source_end() {
    let mut dir = setup(&[
        ("src.rs", "keep\nfn marker() {}\nkeep2\n"),
        ("dst.rs", "a\nb\n"),
    ]);
    run(
        &mut dir,
        "src.rs",
        "fn marker() {}",
        None,
        "dst.rs",
        None,
        "append",
    )
    .unwrap();
    assert_eq!(
        dir["dst.rs"],
        "a\nb\nfn marker() {}\n"
    );
}

#[test]
fn insert_after_anchor() {
    let mut dir = setup(&[
        ("src.rs", "line1\nline2\nline3\n"),
        ("dst.rs", "head\nmid\ntail\n"),
    ]);
    run(
        &mut dir,
        "src.rs",
        "line2",
        None,
        "dst.rs",
        Some("mid"),
        "insert_after",
    )
    .unwrap();
    assert_eq!(
        dir["dst.rs"],
        "head\nmid\nline2\ntail\n"
    );
}

#[test]
fn insert_before_anchor() {
    let mut dir = setup(&[("src.rs", "X1\nX2\n"), ("dst.rs", "a\nb\nc\n")]);
    run(
        &mut dir,
        "src.rs",
        "X1",
        Some("X2"),
        "dst.rs",
        Some("b"),
        "insert_before",
    )
    .unwrap();
    assert_eq!(
        dir["dst.rs"],
        "a\nX1\nX2\nb\nc\n"
    );
}

#[test]
fn prepend_to_file() {
    let mut dir = setup(&[("src.rs", "HEADER\n"), ("dst.rs", "body\n")]);
    run(&mut dir, "src.rs", "HEADER", None, "dst.rs", None, "prepend").unwrap();
    assert_eq!(
        dir["dst.rs"],
        "HEADER\nbody\n"
    );
}

#[test]
fn ambiguous_source_start_rejected_with_candidates() {
    let mut dir = setup(&[("src.rs", "dup\nx\ndup\ny\n"), ("dst.rs", "out\n")]);
    let err = run(&mut dir, "src.rs", "dup", None, "dst.rs", None, "append").unwrap_err();
    assert!(err.contains("SOURCE_START_AMBIGUOUS"), "got: {err}");
    assert!(err.contains("L1"), "candidates expected, got: {err}");
    assert!(err.contains("L3"), "candidates expected, got: {err}");
}

#[test]
fn end_anchor_missing_rejected() {
    let mut dir = setup(&[("src.rs", "start\nbody\n"), ("dst.rs", "out\n")]);
    let err = run(
        &mut dir,
        "src.rs",
        "start",
        Some("nope"),
        "dst.rs",
        None,
        "append",
    )
    .unwrap_err();
    assert!(err.contains("SOURCE_END_NOT_FOUND"), "got: {err}");
}

#[test]
fn same_file_insert_inside_range_rejected() {
    let mut dir = setup(&[("f.rs", "a\nb\nc\nd\n")]);
    let err = run(
        &mut dir,
        "f.rs",
        "b",
        Some("c"),
        "f.rs",
        Some("b"),
        "insert_after",
    )
    .unwrap_err();
    assert!(err.contains("INSERT_INSIDE_RANGE"), "got: {err}");
}

#[test]
fn same_file_insert_after_range_allowed() {
    let mut dir = setup(&[("f.rs", "a\nb\nc\nd\n")]);
    run(
        &mut dir,
        "f.rs",
        "b",
        Some("c"),
        "f.rs",
        Some("d"),
        "insert_before",
    )
    .unwrap();
    assert_eq!(
        dir["f.rs"],
        "a\nb\nc\nb\nc\nd\n"
    );
}

#[test]
fn crlf_target_uses_crlf_for_inserted_lines() {
    let mut dir = setup(&[("src.rs", "s1\ns2\n"), ("dst.rs", "h1\r\nh2\r\n")]);
    run(&mut dir, "src.rs", "s1", Some("s2"), "dst.rs", None, "append").unwrap();
    assert_eq!(
        dir["dst.rs"],
        "h1\r\nh2\r\ns1\r\ns2\r\n"
    );
}

#[test]
fn missing_anchor_when_mode_requires_it() {
    let mut dir = setup(&[("src.rs", "s\n"), ("dst.rs", "t\n")]);
    let err = run(&mut dir, "src.rs", "s", None, "dst.rs", None, "insert_after").unwrap_err();
    assert!(err.contains("MISSING_TARGET_ANCHOR"), "got: {err}");
}

#[test]
fn missing_files_and_arguments_are_refused() {
    let mut dir = setup(&[("src.rs", "s\n")]);
    let err = run(&mut dir, "gone.rs", "s", None, "src.rs", None, "append").unwrap_err();
    assert!(err.starts_with("SOURCE_"), "got: {err}");
    let err = run(&mut dir, "src.rs", "s", None, "src.rs", None, "sideways").unwrap_err();
    assert!(err.starts_with("INVALID_MODE"), "got: {err}");
    assert!(plan_copy(&Json::Obj(vec![])).is_err());
}

#[test]
fn copying_needs_a_target() {
    let mut dir = setup(&[("src.rs", "s\nt\n"), ("dst.rs", "")]);
    let err = run(&mut dir, "src.rs", "s", Some("t"), "new.rs", None, "append").unwrap_err();
    assert_eq!(err, "TARGET_READ_ERROR: failed to read target new.rs: No such file or directory");
    let text = run(&mut dir, "src.rs", "s", Some("t"), "dst.rs", None, "append").unwrap();
    assert_eq!(text, "[OK] copy_range — 2 line(s) L1-L2 copied: src.rs → dst.rs (append)\n");
    assert_eq!(dir["dst.rs"], "s\nt\n");
}

#[test]
fn untouched_lines_keep_their_bytes() {
    let mut dir = setup(&[("src.rs", "s\n"), ("dst.rs", "a\r\nb\nc")]);
    run(&mut dir, "src.rs", "s", None, "dst.rs", Some("b"), "insert_after").unwrap();
    assert_eq!(dir["dst.rs"], "a\r\nb\ns\r\nc\r\n");
}

#[test]
fn modes_have_names() {
    for m in [Mode::InsertAfter, Mode::InsertBefore, Mode::Append, Mode::Prepend] {
        assert_eq!(Mode::parse(m.name()), Some(m));
    }
    assert_eq!(Mode::parse("sideways"), None);
}
