use qaqh_workspace::file_glob::{list_files, plan_glob, render_glob};
use qaqh_workspace::grep_tool::glob_fits;
use qaqh_workspace::json::Json;
use qaqh_workspace::refusal::Refusal;

fn from_value(v: serde_json::Value) -> Json {
    match v {
        serde_json::Value::Null => Json::Null,
        serde_json::Value::Bool(b) => Json::Bool(b),
        serde_json::Value::Number(n) => match (n.as_u64(), n.as_i64()) {
            (Some(u), _) => Json::Uint(u),
            (None, Some(i)) => Json::Int(i),
            _ => Json::Float(n.to_string()),
        },
        serde_json::Value::String(s) => Json::Str(s),
        serde_json::Value::Array(a) => Json::Arr(a.into_iter().map(from_value).collect()),
        serde_json::Value::Object(o) => {
            Json::Obj(o.into_iter().map(|(k, v)| (k, from_value(v))).collect())
        }
    }
}

fn json(text: &str) -> Json {
    from_value(serde_json::from_str(text).unwrap())
}

fn fixture() -> Vec<String> {
    ["src/a.rs", "src/sub/b.rs", "src/data.txt", "crates/qaqh-a/src/lib.rs", "README.md"]
        .iter()
        .map(|s| s.to_string())
        .collect()
}

fn run(args: &str) -> Result<(Vec<String>, String), Refusal> {
    let call = plan_glob(&json(args))?;
    let run = list_files(&call, &fixture());
    Ok(render_glob(run, call.max_results))
}

fn lines(args: &str) -> Vec<String> {
    run(args).unwrap().1.lines().map(String::from).collect()
}

#[test]
fn glob_star_star_matches_recursively() {
    let list = lines(r#"{ "pattern": "src/**/*.rs" }"#);
    assert!(list.contains(&"src/a.rs".to_string()));
    assert!(list.contains(&"src/sub/b.rs".to_string()));
    let single_list = lines(r#"{ "pattern": "src/*.rs" }"#);
    assert!(single_list.contains(&"src/a.rs".to_string()));
    assert!(!single_list.contains(&"src/sub/b.rs".to_string()));
}

#[test]
fn glob_alternation_and_root_limiting() {
    let list = lines(r#"{ "pattern": "crates/{qaqh-a,qaqh-b}/src/lib.rs" }"#);
    assert!(list.contains(&"crates/qaqh-a/src/lib.rs".to_string()));
    assert!(!list.contains(&"README.md".to_string()));
}

#[test]
fn glob_invalid_pattern_and_empty_match() {
    assert!(run(r#"{ "pattern": "src/[unclosed" }"#).is_err(), "invalid glob must error");
    let none = lines(r#"{ "pattern": "*.toml" }"#);
    assert!(none.iter().any(|l| l.contains("no files match")));
}

#[test]
fn glob_respects_max_results() {
    let (listed, text) = run(r#"{ "pattern": "**/*", "max_results": 2 }"#).unwrap();
    assert!(text.contains("truncated"));
    let path_lines = text.lines().filter(|l| !l.starts_with("...")).count();
    assert_eq!(path_lines, 2);
    assert_eq!(listed.len(), 2);
}

#[test]
fn glob_needs_a_pattern_and_sorts_what_it_finds() {
    assert!(run("{}").is_err());
    let (listed, _) = run(r#"{ "pattern": "**/*.rs" }"#).unwrap();
    assert_eq!(listed, vec!["crates/qaqh-a/src/lib.rs", "src/a.rs", "src/sub/b.rs"]);
}

#[test]
fn glob_that_is_nested_too_deeply_is_refused() {
    let args = |pattern: String| Json::Obj(vec![("pattern".to_string(), Json::Str(pattern))]);
    let deep = format!("{}a{}", "{".repeat(5_000), "}".repeat(5_000));
    let refusal = plan_glob(&args(deep)).unwrap_err();
    assert!(refusal.message.contains("too long or too deeply nested"), "{}", refusal.message);
    let call = plan_glob(&args("{src,{lib,bin}}/*.rs".to_string())).unwrap();
    let found = list_files(&call, &fixture());
    assert_eq!(render_glob(found, call.max_results).0, vec!["src/a.rs"]);
}

#[test]
fn glob_reads_a_backslash_as_the_system_does() {
    let call = plan_glob(&json(r#"{ "pattern": "src\\*.rs" }"#)).unwrap();
    let files = vec!["src/a.rs".to_string(), "src*.rs".to_string()];
    let found = render_glob(list_files(&call, &files), call.max_results).0;
    if std::path::is_separator('\\') {
        assert_eq!(found, vec!["src/a.rs"]);
    } else {
        assert_eq!(found, vec!["src*.rs"]);
    }
}

#[test]
fn glob_braces_count_only_where_they_nest() {
    let args = |pattern: String| Json::Obj(vec![("pattern".to_string(), Json::Str(pattern))]);
    let flat = format!("[sS]rc/{}a.rs", "{,x}".repeat(600));
    assert!(glob_fits(&flat, false) && glob_fits(&flat, true));
    let class = format!("[]{}]*", "{".repeat(600));
    assert!(glob_fits(&class, false) && glob_fits(&class, true));
    let negated = format!("[!]{}]*", "{".repeat(600));
    assert!(glob_fits(&negated, false));
    let escaped = "\\{".repeat(600);
    assert!(glob_fits(&escaped, false) && !glob_fits(&escaped, true));
    assert!(!glob_fits(&"{".repeat(501), false) && glob_fits(&"{".repeat(500), false));
    let braces = format!("[s]rc/{}*.rs", "{a,b,}".repeat(300));
    let call = plan_glob(&args(braces)).unwrap();
    assert_eq!(render_glob(list_files(&call, &fixture()), call.max_results).0.len(), 0);
    let deep = format!("{}a{}", "{".repeat(400), "}".repeat(400));
    let refusal = plan_glob(&args(deep)).unwrap_err();
    assert!(refusal.message.contains("error parsing pattern"), "{}", refusal.message);
    assert!(!refusal.message.contains("too deeply nested"), "{}", refusal.message);
}
