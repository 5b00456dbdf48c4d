use qaqh_workspace::json::Json;
use qaqh_workspace::manager::{
    audit_args_summary, build_dynamic_tool, extract_files_affected, is_path_in_workspace, truncate_description,
    SafetyVerdict, ToolCategory, ToolInfo, ToolManager, ToolPlacement, ToolRisk,
};

fn info() -> ToolInfo {
    ToolInfo {
        risk: ToolRisk::ReadOnly,
        category: ToolCategory::Read,
        placement: ToolPlacement::Workspace,
        default_timeout_secs: 10,
    }
}

fn manager(keys: &[&str]) -> ToolManager {
    let mut mgr = ToolManager::new();
    for k in keys {
        mgr.register(k, info());
    }
    mgr
}

fn list(names: &[&str]) -> Vec<String> {
    names.iter().map(|s| s.to_string()).collect()
}

fn names(mgr: &ToolManager) -> Vec<String> {
    let (fixed, dynamic) = mgr.filtered_names();
    let mut v: Vec<String> = fixed.into_iter().chain(dynamic).collect();
    v.sort();
    v
}

#[test]
fn apply_init_filters_unknown_renamed_tool_names() {
    let mut mgr = manager(&["read", "exec"]);
    mgr.apply_init(&list(&["read", "edit", "read", "exec"]), &mut String::new(), "s1");
    assert_eq!(names(&mgr), vec!["exec", "read"]);
}

#[test]
fn apply_init_all_unknown_falls_back_to_all_tools() {
    let mut mgr = manager(&["exec"]);
    mgr.apply_init(&list(&["read", "edit"]), &mut String::new(), "s1");
    assert_eq!(names(&mgr), vec!["exec"]);
}

#[test]
fn apply_init_empty_stays_all_tools() {
    let mut mgr = manager(&["exec"]);
    mgr.apply_init(&[], &mut String::new(), "s1");
    assert_eq!(names(&mgr), vec!["exec"]);
}

#[test]
fn set_allowed_restricts_and_restores() {
    let mut mgr = manager(&["exec", "read", "write"]);
    mgr.set_allowed(&list(&["exec", "read"]));
    assert_eq!(names(&mgr), vec!["exec", "read"]);
    mgr.set_allowed(&[]);
    assert_eq!(names(&mgr), vec!["exec", "read", "write"]);
}

#[test]
fn set_allowed_filters_unknown_names() {
    let mut mgr = manager(&["exec"]);
    mgr.set_allowed(&list(&["exec", "ghost"]));
    assert_eq!(names(&mgr), vec!["exec"]);
    mgr.set_allowed(&list(&["ghost"]));
    assert_eq!(names(&mgr), vec!["exec"]);
}

#[test]
fn set_allowed_does_not_touch_session() {
    let mut mgr = manager(&["exec"]);
    let mut session = String::new();
    mgr.apply_init(&[], &mut session, "seed-A");
    mgr.set_allowed(&list(&["exec"]));
    assert_eq!(session, "seed-A");
}

#[test]
fn set_allowed_gates_prepare_req() {
    let mut mgr = manager(&["exec", "read"]);
    mgr.set_allowed(&list(&["read"]));
    let err = mgr.prepare_req("c1", "exec", None, &SafetyVerdict::Allow);
    assert!(err.is_err());
    let report = err.unwrap_err();
    assert!(!report.success && !report.meta.success);
    assert_eq!(report.meta.name, "exec");
    let ok = mgr.prepare_req("c2", "read", None, &SafetyVerdict::Allow);
    assert!(ok.is_ok());
}

#[test]
fn prepare_routes_dynamic_tool_to_injected_fn() {
    let mut mgr = ToolManager::new();
    let (name, _, tool) = build_dynamic_tool(
        "demo",
        "echo",
        "dynamic test tool",
        ToolPlacement::HostOnly,
        ToolCategory::Exec,
        30,
    );
    mgr.register_dynamic(&name, tool).expect("register dynamic");
    let prepared = mgr.prepare_req("id-1", &name, None, &SafetyVerdict::Allow);
    let prepared = prepared.map_err(|report| report.content).expect("dynamic tool prepare should succeed");
    assert_eq!(prepared.name, "mcp__demo__echo");
    assert_eq!(prepared.placement, ToolPlacement::HostOnly);
    assert_eq!(prepared.timeout_secs, 30);
    let report = mgr.prepare_req("id-2", "mcp__demo__nope", None, &SafetyVerdict::Allow).unwrap_err();
    assert!(report.content.contains("Unknown tool"), "{}", report.content);
}

fn with_path(path: &str) -> Json {
    Json::Obj(vec![("path".to_string(), Json::Str(path.to_string()))])
}

#[test]
fn sibling_prefix_and_dotdot_cannot_pose_as_workspace() {
    let ws = "/tmp/t/ws-proj";
    assert!(is_path_in_workspace(&with_path("src/main.rs"), ws));
    assert!(is_path_in_workspace(&with_path("/tmp/t/ws-proj/src/main.rs"), ws));
    assert!(!is_path_in_workspace(&with_path("/tmp/t/ws-proj-backup/x"), ws));
    assert!(!is_path_in_workspace(&with_path("../outside.txt"), ws));
    assert!(!is_path_in_workspace(&with_path("a/../../outside.txt"), ws));
    assert!(is_path_in_workspace(&Json::Obj(vec![]), ws));
}

#[test]
fn calls_are_counted_and_their_files_kept() {
    let mut mgr = manager(&["read", "write"]);
    let p = mgr.prepare_req("c1", "read", Some(5), &SafetyVerdict::Allow).unwrap();
    assert_eq!(p.timeout_secs, 5);
    let r = mgr.finalize_req(p, "né".to_string(), true, 7, &with_path("a.txt"));
    assert_eq!(r.meta.output_size, 3);
    assert_eq!(r.files_affected, vec!["a.txt"]);
    let p = mgr.prepare_req("c2", "write", None, &SafetyVerdict::Allow).unwrap();
    mgr.finalize_req(p, "no".to_string(), false, 7, &with_path("b.txt"));
    let stats = mgr.stats();
    assert_eq!((stats.calls_total, stats.failures), (2, 1));
    let blocked =
        mgr.prepare_req("c3", "read", None, &SafetyVerdict::Block("unsafe".to_string())).unwrap_err();
    assert!(blocked.content.contains("unsafe"));
}

#[test]
fn cancelled_calls_are_marked() {
    let mut mgr = manager(&["exec"]);
    mgr.prepare_req("c1", "exec", None, &SafetyVerdict::Allow).unwrap();
    mgr.prepare_req("c2", "exec", None, &SafetyVerdict::Allow).unwrap();
    mgr.cancel_tool(Some("c1"));
    assert_eq!(mgr.inflight.get("c1"), Some(&true));
    assert_eq!(mgr.inflight.get("c2"), Some(&false));
    mgr.cancel_tool(None);
    assert_eq!(mgr.inflight.get("c2"), Some(&true));
}

#[test]
fn dynamic_tools_come_and_go() {
    let mut mgr = manager(&["read"]);
    assert!(mgr.register_dynamic("read", info()).is_err());
    mgr.register_dynamic("mcp__b__x", info()).unwrap();
    mgr.register_dynamic("mcp__a__x", info()).unwrap();
    assert!(mgr.register_dynamic("mcp__a__x", info()).is_err());
    assert_eq!(mgr.dynamic_names(), vec!["mcp__a__x", "mcp__b__x"]);
    assert_eq!(mgr.risk_of("mcp__a__x"), Some(ToolRisk::ReadOnly));
    mgr.clear_dynamic();
    assert!(mgr.dynamic_names().is_empty());
    assert!(mgr.lookup("read").is_some());
}

#[test]
fn descriptions_and_summaries_are_short() {
    let long = "é".repeat(5_000);
    assert!(truncate_description(&long).chars().count() < 5_000);
    assert_eq!(truncate_description("short"), "short");
    let summary = audit_args_summary(&with_path("a.txt"));
    assert!(summary.contains("a.txt"), "{summary}");
    assert!(extract_files_affected(&Json::Null).is_empty());
}
