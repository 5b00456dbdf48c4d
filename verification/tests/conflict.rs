use qaqh_workspace::conflict::{file_write_paths, patch_target_paths, resolve_write_conflicts};
use qaqh_workspace::json::Json;

fn from_value(v: serde_json::Value) -> Json {
    match v {
        serde_json::Value::Null => Json::Null,
        serde_json::Value::Bool(b) => Json::Bool(b),
        serde_json::Value::Number(n) => match (n.as_u64(), n.as_i64()) {
            (Some(u), _) => Json::Uint(u),
            (None, Some(i)) => Json::Int(i),
            _ => Json::Float(n.to_string()),
        },
        serde_json::Value::String(s) => Json::Str(s),
        serde_json::Value::Array(a) => Json::Arr(a.into_iter().map(from_value).collect()),
        serde_json::Value::Object(o) => {
            Json::Obj(o.into_iter().map(|(k, v)| (k, from_value(v))).collect())
        }
    }
}

fn json(text: &str) -> Json {
    from_value(serde_json::from_str(text).unwrap())
}

fn text_object(key: &str, value: &str) -> Json {
    Json::Obj(vec![(key.to_string(), Json::Str(value.to_string()))])
}

fn tool(name: &str, path: &str) -> (String, Json) {
    (name.to_string(), text_object("path", path))
}

#[test]
fn flat_file_mutations_on_same_path_are_serialized() {
    let pending = vec![
        tool("write", "src/lib.rs"),
        tool("edit_file", "src/lib.rs"),
        tool("delete", "src/other.rs"),
    ];

    let (groups, serial_after) = resolve_write_conflicts(&pending);

    assert_eq!(groups, vec![vec![0, 1]]);
    assert_eq!(serial_after, vec![1]);
}

#[test]
fn same_file_double_apply_patch_serialized() {
    let mk = |target: &str| {
        (
            "apply_patch".to_string(),
            text_object("patch", &format!(
                "*** Begin Patch\n*** Update File: {target}\n@@\n-old\n+new\n*** End Patch"
            )),
        )
    };
    let pending = vec![mk("src/a.rs"), mk("src/a.rs")];
    let (groups, serial_after) = resolve_write_conflicts(&pending);
    assert_eq!(groups, vec![vec![0, 1]]);
    assert_eq!(serial_after, vec![1]);
}

#[test]
fn copy_range_write_targets_are_grouped() {
    let pending = vec![
        (
            "copy_range".to_string(),
            json(r#"{"source_path":"a.txt","target_path":"out/b.txt"}"#),
        ),
        (
            "copy_range".to_string(),
            json(r#"{"source_path":"c.txt","target_path":"out/b.txt"}"#),
        ),
    ];
    let (groups, serial_after) = resolve_write_conflicts(&pending);
    assert_eq!(groups, vec![vec![0, 1]]);
    assert_eq!(serial_after, vec![1]);
}

#[test]
fn independent_file_mutations_remain_parallel() {
    let pending = vec![tool("write", "src/a.rs"), tool("edit_file", "src/b.rs")];

    let (groups, serial_after) = resolve_write_conflicts(&pending);

    assert!(groups.is_empty());
    assert!(serial_after.is_empty());
}

#[test]
fn todo_mutations_are_serialized_in_model_order() {
    let pending = vec![
        tool("todo_write", ""),
        tool("todo_update", ""),
        tool("read", ""),
        tool("todo_write", ""),
    ];

    let (groups, serial_after) = resolve_write_conflicts(&pending);

    assert_eq!(groups, vec![vec![0, 1, 3]]);
    assert_eq!(serial_after, vec![1, 3]);
}

#[test]
fn patch_paths_are_those_of_its_hunks() {
    let patch = "*** Begin Patch\n*** Add File: a\n+x\n*** Update File: b\n*** Move to: c\n@@\n-y\n+z\n*** Delete File: d\n*** End Patch";
    let paths = patch_target_paths(patch);
    for p in ["a", "b", "c", "d"] {
        assert!(paths.contains(&p.to_string()), "{p} in {paths:?}");
    }
    assert_eq!(
        file_write_paths("copy_range", &json(r#"{"source_path":"a","target_path":"b"}"#)),
        vec!["b".to_string()]
    );
    assert!(file_write_paths("read", &text_object("path", "a")).is_empty());
}

#[test]
fn chains_of_shared_paths_make_one_group() {
    let pending = vec![tool("write", "x"), tool("delete", "y"), tool("write", "y"), tool("write", "x")];
    let (groups, after) = resolve_write_conflicts(&pending);
    assert_eq!(groups, vec![vec![0, 3], vec![1, 2]]);
    assert_eq!(after, vec![2, 3]);
}
