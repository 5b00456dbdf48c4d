use grep_regex::RegexMatcherBuilder;
use grep_searcher::{Searcher, SearcherBuilder, Sink, SinkContext, SinkMatch};
use qaqh_workspace::bounds::{parts_from, parts_of};
use qaqh_workspace::grep_tool::{check_root, plan_grep, render_grep, wants_file, GrepRun};
use qaqh_workspace::json::Json;
use qaqh_workspace::ledger::{correct_line, record_edit_with_shifts, Ledger};
use qaqh_workspace::refusal::Refusal;

fn from_value(v: serde_json::Value) -> Json {
    match v {
        serde_json::Value::Null => Json::Null,
        serde_json::Value::Bool(b) => Json::Bool(b),
        serde_json::Value::Number(n) => match (n.as_u64(), n.as_i64()) {
            (Some(u), _) => Json::Uint(u),
            (None, Some(i)) => Json::Int(i),
            _ => Json::Float(n.to_string()),
        },
        serde_json::Value::String(s) => Json::Str(s),
        serde_json::Value::Array(a) => Json::Arr(a.into_iter().map(from_value).collect()),
        serde_json::Value::Object(o) => {
            Json::Obj(o.into_iter().map(|(k, v)| (k, from_value(v))).collect())
        }
    }
}

fn json(text: &str) -> Json {
    from_value(serde_json::from_str(text).unwrap())
}

/// Hands what a search of one file finds to the run.
struct Lines<'a> {
    run: &'a mut GrepRun,
    ledger: &'a mut Ledger,
    path: &'a str,
}

impl Sink for Lines<'_> {
    type Error = std::io::Error;

    fn matched(&mut self, _: &Searcher, m: &SinkMatch<'_>) -> Result<bool, std::io::Error> {
        let line = m.line_number().unwrap_or(0);
        Ok(self.run.matched(self.ledger, self.path, self.path, line, m.bytes()))
    }

    fn context(&mut self, _: &Searcher, c: &SinkContext<'_>) -> Result<bool, std::io::Error> {
        Ok(self.run.context(self.path, c.line_number().unwrap_or(0), c.bytes()))
    }
}

fn run(files: &[(&str, &str)], args: &str) -> Result<GrepRun, Refusal> {
    let call = plan_grep(&json(args))?;
    let workspace = parts_of("/w");
    for p in &call.paths {
        check_root(p, &parts_from(p, "/w"), &workspace)?;
    }
    let matcher =
        RegexMatcherBuilder::new().case_insensitive(call.insensitive).build(&call.pattern).unwrap();
    let mut run = GrepRun::new(call.max_results);
    let mut ledger = Ledger::new();
    for (path, text) in files {
        if !wants_file(&call, path) {
            continue;
        }
        if !run.next_file() {
            break;
        }
        let mut searcher = SearcherBuilder::new()
            .before_context(call.before as usize)
            .after_context(call.after as usize)
            .build();
        let sink = Lines { run: &mut run, ledger: &mut ledger, path };
        searcher.search_slice(&matcher, text.as_bytes(), sink).unwrap();
    }
    Ok(run)
}

#[test]
fn basic_search_returns_path_line_content() {
    let out = run(
        &[
            ("src/a.rs", "fn alpha() {}\nlet x = 1;\n"),
            ("src/b.rs", "fn beta() {}\n"),
            ("README.md", "no code here\n"),
        ],
        r#"{ "pattern": "fn \\w+" }"#,
    )
    .unwrap();
    assert_eq!(out.count(), 2);
    let m = &out.lines[0];
    assert_eq!(m.line, 1);
    assert!(m.content.contains("fn "));
    assert_eq!(render_grep(&out), "src/a.rs:1:fn alpha() {}\nsrc/b.rs:1:fn beta() {}\n");
}

#[test]
fn case_insensitive_by_default_sensitive_when_requested() {
    let files = [("f.txt", "Hello\nworld\n")];
    assert_eq!(run(&files, r#"{ "pattern": "hello" }"#).unwrap().count(), 1);
    let out2 = run(&files, r#"{ "pattern": "hello", "case_sensitive": true }"#).unwrap();
    assert_eq!(out2.count(), 0);
}

#[test]
fn glob_filters_files() {
    let out = run(
        &[("src/a.rs", "target\n"), ("src/a.md", "target\n")],
        r#"{ "pattern": "target", "glob": ["*.rs"] }"#,
    )
    .unwrap();
    assert_eq!(out.count(), 1);
    assert!(out.lines[0].path.ends_with("a.rs"));
}

#[test]
fn max_results_truncates_with_marker() {
    let files: Vec<(String, String)> =
        (0..20).map(|i| (format!("f{i:02}.txt"), format!("hit line {i}\n"))).collect();
    let file_refs: Vec<(&str, &str)> = files.iter().map(|(n, c)| (n.as_str(), c.as_str())).collect();
    let out = run(&file_refs, r#"{ "pattern": "hit", "max_results": 5 }"#).unwrap();
    assert_eq!(out.count(), 5);
    assert_eq!(out.truncated, true);
    assert!(render_grep(&out).contains("... truncated at 5 matches"));
}

#[test]
fn no_match_is_ok_with_zero_count() {
    let out = run(&[("f.txt", "abc\n")], r#"{ "pattern": "zzz" }"#).unwrap();
    assert_eq!(out.count(), 0);
    assert_eq!(render_grep(&out), "(no matches)\n");
}

#[test]
fn invalid_regex_reports_error() {
    let refusal = run(&[("f.txt", "abc\n")], r#"{ "pattern": "(" }"#).unwrap_err();
    assert!(refusal.message.contains("invalid regex"), "got: {refusal:?}");
}

#[test]
fn context_lines_are_included() {
    let out = run(
        &[("f.txt", "a\nTARGET\nc\n")],
        r#"{ "pattern": "TARGET", "context_before": 1, "context_after": 1 }"#,
    )
    .unwrap();
    assert_eq!(out.count(), 1);
    let hits: Vec<u64> = out.lines.iter().filter(|l| !l.is_context).map(|l| l.line).collect();
    assert_eq!(hits, vec![2]);
    assert_eq!(render_grep(&out), "f.txt-1-a\nf.txt:2:TARGET\nf.txt-3-c\n");
}

#[test]
fn path_outside_workspace_rejected() {
    let refusal =
        run(&[("f.txt", "abc\n")], r#"{ "pattern": "abc", "paths": ["../../.."] }"#).unwrap_err();
    assert!(refusal.message.contains("workspace"), "got: {refusal:?}");
}

#[test]
fn unwanted_files_are_left_out() {
    let out = run(
        &[("src/a.rs", "x\n"), ("src/b.rs", "x\n")],
        r#"{ "pattern": "x", "glob": ["!**/b.rs"] }"#,
    )
    .unwrap();
    assert_eq!(out.count(), 1);
    assert_eq!(out.lines[0].path, "src/a.rs");
}

#[test]
fn bytes_that_are_no_text_are_shown_all_the_same() {
    let mut run = GrepRun::new(10);
    let mut ledger = Ledger::new();
    record_edit_with_shifts(&mut ledger, "/w/f", "", &[(1, 4)]);
    assert!(run.matched(&mut ledger, "f", "/w/f", 3, b"caf\xe9\r\n"));
    assert_eq!(run.lines[0].content, "caf\u{fffd}");
    assert_eq!(correct_line(&ledger, "/w/f", 3), None);
}

#[test]
fn a_glob_that_is_nested_too_deeply_picks_no_file() {
    let deep = format!("{}f.txt{}", "{".repeat(5_000), "}".repeat(5_000));
    let args = |globs: &[&str]| {
        Json::Obj(vec![
            ("pattern".to_string(), Json::Str("x".to_string())),
            (
                "glob".to_string(),
                Json::Arr(globs.iter().map(|g| Json::Str(g.to_string())).collect()),
            ),
        ])
    };
    let both = plan_grep(&args(&[&deep, "*.rs"])).unwrap();
    assert!(!wants_file(&both, "f.txt"));
    assert!(wants_file(&both, "a.rs"));
    let one = plan_grep(&args(&["a\\*.rs"])).unwrap();
    assert_eq!(wants_file(&one, "a*.rs"), !std::path::is_separator('\\'));
}
