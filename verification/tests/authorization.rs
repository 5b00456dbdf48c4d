use qaqh_workspace::authorization::{
    decide_admission, is_subagent_sandbox, set_subagent_sandbox, Admission, ApprovalError, PermissionDecision,
    PermissionRisk, Sandbox, ToolInvocation,
};
use qaqh_workspace::json::Json;
use qaqh_workspace::manager::{is_path_in_workspace, ToolCategory};

fn with(key: &str, value: &str) -> Json {
    Json::Obj(vec![(key.to_string(), Json::Str(value.to_string()))])
}

fn asks(category: ToolCategory) -> PermissionDecision {
    PermissionDecision::AskUser {
        reason: "approval is needed".to_string(),
        paths: vec!["src/lib.rs".to_string()],
        category,
        risk: PermissionRisk::Medium,
        consequence: "Changes files inside the current workspace.".to_string(),
    }
}

fn invoke(tool: &str, args: Json, ws: &str, category: ToolCategory, sandbox: bool) -> Admission {
    invoke_with(asks(category), tool, args, ws, category, sandbox)
}

fn invoke_with(
    decision: PermissionDecision,
    tool: &str,
    args: Json,
    ws: &str,
    category: ToolCategory,
    sandbox: bool,
) -> Admission {
    let file_tool = matches!(category, ToolCategory::Read | ToolCategory::Write);
    let inside = file_tool && is_path_in_workspace(&args, ws);
    let mut state = Sandbox::new();
    assert!(!is_subagent_sandbox(&state));
    set_subagent_sandbox(&mut state, !sandbox);
    set_subagent_sandbox(&mut state, sandbox);
    assert_eq!(is_subagent_sandbox(&state), sandbox);
    let targets = vec!["b".to_string(), "a".to_string(), "b".to_string()];
    decide_admission(
        ToolInvocation {
            session_id: "sub-a".to_string(),
            call_id: "call-s".to_string(),
            tool_name: tool.to_string(),
            action: String::new(),
            args,
            category,
        },
        decision,
        &state,
        inside,
        &targets,
        ws.to_string(),
        1_000,
    )
}

#[test]
fn approval_challenge_preserves_backend_risk_and_consequence() {
    let ws = "/tmp/qaqh-authorization-risk";
    let args = with("path", "/tmp/qaqh-authorization-risk/src/lib.rs");
    let Admission::ApprovalRequired(challenge) = invoke("write", args, ws, ToolCategory::Write, false) else {
        panic!("level 1 write must require approval");
    };
    assert_eq!(challenge.normalized_args().get_str("path"), Some("/tmp/qaqh-authorization-risk/src/lib.rs"));
    assert_eq!(challenge.risk(), PermissionRisk::Medium);
    assert_eq!(challenge.consequence(), "Changes files inside the current workspace.");
}

#[test]
fn sandbox_auto_approves_workspace_file_ops_even_at_level_1() {
    let ws = "/tmp/qaqh-sandbox-a";
    let path = "/tmp/qaqh-sandbox-a/notes.md";
    let admission = invoke("write", with("path", path), ws, ToolCategory::Write, true);
    assert!(matches!(admission, Admission::Authorized(_)), "expected authorized");
    let admission = invoke("read", with("path", path), ws, ToolCategory::Read, true);
    match admission {
        Admission::Authorized(call) => {
            assert_eq!(call.resources(), ["a".to_string(), "b".to_string()]);
            assert_eq!(call.workspace_root(), ws);
            assert_eq!(call.tool_name(), "read");
        }
        _ => panic!("expected authorized"),
    }
}

#[test]
fn sandbox_denies_cross_workspace_access() {
    let ws = "/tmp/qaqh-sandbox-b";
    let outside = "/tmp/qaqh-sandbox-b-outside/secret.txt";
    match invoke("write", with("path", outside), ws, ToolCategory::Write, true) {
        Admission::Denied(reason) => assert!(reason.contains("sandbox"), "{reason}"),
        _ => panic!("cross-workspace write must be denied, got non-denied"),
    }
}

#[test]
fn sandbox_denies_exec_and_net() {
    let ws = "/tmp/qaqh-sandbox-c";
    for (tool, args, category) in [
        ("exec", with("command", "whoami"), ToolCategory::Exec),
        ("web_fetch", with("url", "https://example.com"), ToolCategory::Net),
    ] {
        let admission = invoke(tool, args, ws, category, true);
        assert!(
            matches!(admission, Admission::Denied(_)),
            "{tool} must be denied in sandbox, got non-denied"
        );
    }
}

#[test]
fn non_sandbox_still_requires_approval() {
    let ws = "/tmp/qaqh-sandbox-d";
    let admission =
        invoke("write", with("path", "/tmp/qaqh-sandbox-d/notes.md"), ws, ToolCategory::Write, false);
    assert!(
        matches!(admission, Admission::ApprovalRequired(_)),
        "non-sandbox must keep approval path"
    );
}

fn challenge() -> qaqh_workspace::authorization::PermissionChallenge {
    match invoke("write", with("path", "/w/a"), "/w", ToolCategory::Write, false) {
        Admission::ApprovalRequired(c) => c,
        _ => panic!("approval expected"),
    }
}

#[test]
fn approvals_expire_and_can_be_rejected() {
    assert!(!challenge().is_expired(50, 1_050));
    assert!(challenge().is_expired(50, 1_051));
    assert_eq!(challenge().approve(false, 1_000).unwrap_err(), ApprovalError::Rejected);
    assert_eq!(challenge().approve_with_ttl(true, 50, 1_051).unwrap_err(), ApprovalError::Expired);
    let call = challenge().approve(true, 1_000).unwrap();
    assert_eq!(call.call_id(), "call-s");
    assert_eq!(call.resources(), ["src/lib.rs".to_string()]);
}

#[test]
fn sandbox_denies_exec_and_net_whatever_the_policy_says() {
    for category in [ToolCategory::Exec, ToolCategory::Net] {
        let args = with("command", "whoami");
        match invoke_with(PermissionDecision::AutoApprove, "exec", args, "/w", category, true) {
            Admission::Denied(reason) => assert!(reason.contains("sandbox"), "{reason}"),
            _ => panic!("denied expected"),
        }
        let args = with("command", "whoami");
        let free = invoke_with(PermissionDecision::AutoApprove, "exec", args, "/w", category, false);
        assert!(matches!(free, Admission::Authorized(_)));
    }
    let inside = invoke_with(
        PermissionDecision::AutoApprove,
        "read",
        with("path", "/w/a"),
        "/w",
        ToolCategory::Read,
        true,
    );
    assert!(matches!(inside, Admission::Authorized(_)));
    let outside = invoke_with(
        PermissionDecision::AutoApprove,
        "read",
        with("path", "/elsewhere/a"),
        "/w",
        ToolCategory::Read,
        true,
    );
    assert!(matches!(outside, Admission::Denied(_)));
}
