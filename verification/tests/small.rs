use qaqh_workspace::bounds::{lexically_normalize, parts_from, parts_of, path_within_workspace, Part};
use qaqh_workspace::code_delta::{compute, git_file_meta};
use qaqh_workspace::dashboard::{
    build_current_todo_id, build_current_todo_id_for, build_documents, build_recent_edits, build_tasks, TodoItem, TodoStatus, TodoStore,
};
use qaqh_workspace::git::{
    branch_list, current_branch, patch_of_lines, puts_changes_aside, status_list, DiffLine, FileStatus, Head,
};
use qaqh_workspace::json::Json;
use qaqh_workspace::keyed::Keyed;
use qaqh_workspace::order::{sort_paths, sort_texts};
use qaqh_workspace::serve::{serve_main, ServeCall};

fn list(names: &[&str]) -> Vec<String> {
    names.iter().map(|s| s.to_string()).collect()
}

#[test]
fn paths_are_normalized_by_their_parts() {
    assert_eq!(
        lexically_normalize(&parts_of("/a/./b/../c")),
        vec![Part::Top("/".to_string()), Part::Name("a".to_string()), Part::Name("c".to_string())]
    );
    let ws = parts_of("/w");
    assert!(path_within_workspace(&parts_from("x/../y", "/w"), &ws));
    assert!(!path_within_workspace(&parts_from("../y", "/w"), &ws));
    assert!(!path_within_workspace(&parts_from("/wide", "/w"), &ws));
}

#[test]
fn names_are_sorted() {
    assert_eq!(sort_texts(list(&["b", "a", "B"])), list(&["B", "a", "b"]));
    assert_eq!(sort_paths(&list(&["b", "a", "b"])), list(&["a", "b"]));
}

#[test]
fn keyed_tables_hold_one_value_for_a_key() {
    let mut t: Keyed<u8> = Keyed::new();
    t.insert("a".to_string(), 1);
    t.insert("a".to_string(), 2);
    assert_eq!(t.get("a"), Some(&2));
    assert_eq!(t.remove("a"), Some(2));
    assert!(!t.contains_key("a"));
}

#[test]
fn changes_of_code_are_counted() {
    let args = Json::Obj(vec![
        ("action".to_string(), Json::Str("write".to_string())),
        ("path".to_string(), Json::Str("a.rs".to_string())),
        ("content".to_string(), Json::Str("one\ntwo\n".to_string())),
    ]);
    let d = compute("file", &args, 9, Some(git_file_meta(true))).unwrap();
    assert_eq!(d.timestamp, 9);
    assert_eq!(d.lines_added, 2);
    assert_eq!(d.files_created, 0);
    assert_eq!(d.file.as_deref(), Some("a.rs"));
    assert_eq!(compute("delete", &args, 9, None).unwrap().files_deleted, 1);
    assert!(compute("read", &args, 9, None).is_none());
    assert_ne!(git_file_meta(true), git_file_meta(false));
}

#[test]
fn dashboard_shows_files_and_tasks() {
    let docs = build_documents(&list(&["src/a.rs", "b.md"]));
    assert_eq!(docs.len(), 2);
    assert_eq!(docs[0].path, "src/a.rs");
    assert_eq!(build_recent_edits(&list(&["x.rs"])).len(), 1);
    let item = |id: &str| TodoItem {
        id: id.to_string(),
        title: "t".to_string(),
        description: "d".to_string(),
        status: TodoStatus::InProgress,
        evidence: None,
    };
    let store = TodoStore { items: vec![item("1"), item("2")], current_id: Some("2".to_string()) };
    let tasks = build_tasks(Some(&store));
    assert_eq!(tasks.len(), 2);
    assert_eq!(tasks[0].status, "in_progress");
    assert!(build_tasks(None).is_empty());
    let mut stores = Keyed::new();
    stores.insert("s".to_string(), store);
    assert_eq!(build_current_todo_id_for(&stores, "s"), Some("2".to_string()));
    assert_eq!(build_current_todo_id_for(&stores, "other"), None);
    let alone = TodoStore { items: Vec::new(), current_id: Some("7".to_string()) };
    assert_eq!(build_current_todo_id(Some(alone)), Some("7".to_string()));
    assert_eq!(build_current_todo_id(None), None);
}

#[test]
fn git_state_is_told() {
    let st = |added, deleted, modified, renamed| FileStatus { added, deleted, modified, renamed };
    let files = vec![
        ("n.rs".to_string(), st(true, false, false, false)),
        ("m.rs".to_string(), st(false, false, true, false)),
    ];
    let changed = status_list(&files);
    assert_eq!(changed.len(), 2);
    assert_ne!(changed[0].change, changed[1].change);
    let head = Head::At { is_branch: true, shorthand: Some("main".to_string()) };
    assert_eq!(current_branch(head), Ok("main".to_string()));
    let detached = Head::At { is_branch: false, shorthand: Some("HEAD".to_string()) };
    assert_eq!(current_branch(detached), Ok(String::new()));
    assert!(current_branch(Head::NoRepository { error: "e".to_string() }).is_err());
    assert_eq!(
        branch_list(&list(&["dev", "main"]), Some("main")),
        vec![("dev".to_string(), false), ("main".to_string(), true)]
    );
    let line = |origin, content: &str| DiffLine { origin, content: content.to_string() };
    assert_eq!(patch_of_lines(&[line('H', "@@ -1 +1 @@\n"), line('-', "a\n"), line('+', "b\n")]), "@@ -1 +1 @@\n-a\n+b\n");
    assert!(puts_changes_aside(true, true));
    assert!(!puts_changes_aside(true, false));
}

#[test]
fn service_needs_a_token() {
    let call = |args: &[&str], token: &str| serve_main(&list(args), token);
    assert_eq!(
        call(&["--port", "8080", "--token", "t"], ""),
        Ok(ServeCall { host: "127.0.0.1".to_string(), port: 8080, token: "t".to_string() })
    );
    assert_eq!(call(&["--token", "t"], "env").unwrap().token, "env");
    assert!(call(&[], "").is_err());
    assert!(call(&["--port", "x"], "env").is_err());
}
