use qaqh_workspace::backend::{
    after_remote, execute, install_workspace_backend, is_connect_failure, tool_timeout_from_args,
    use_local_workspace_backend, AfterRemote, BackendRequest, Execution, HttpFailure, HttpToolExecutionBackend,
    LocalToolExecutionBackend, RemoteOutcome, WorkspaceBackend,
};
use qaqh_workspace::json::Json;
use qaqh_workspace::manager::ToolPlacement;

#[test]
fn connect_failure_classification() {
    assert!(is_connect_failure(HttpFailure::ConnectionFailed));
    assert!(is_connect_failure(HttpFailure::ConnectionRefused));
    assert!(is_connect_failure(HttpFailure::NotConnected));
    assert!(!is_connect_failure(HttpFailure::ConnectionReset));
    assert!(!is_connect_failure(HttpFailure::TimedOut));
    assert!(!is_connect_failure(HttpFailure::Other));
}

fn timeout(n: u64) -> Json {
    Json::Obj(vec![("timeout_secs".to_string(), Json::Uint(n))])
}

#[test]
fn tool_timeout_prefers_model_arg_over_framework_default() {
    assert_eq!(tool_timeout_from_args(&timeout(600), Some(30)), 600);
    let argv = Json::Obj(vec![("argv".to_string(), Json::Arr(vec![Json::Str("cmd".to_string())]))]);
    assert_eq!(tool_timeout_from_args(&argv, Some(30)), 30);
    assert_eq!(tool_timeout_from_args(&timeout(0), Some(30)), 30);
    assert_eq!(tool_timeout_from_args(&timeout(99999), Some(30)), 30);
    let http_timeout = tool_timeout_from_args(&timeout(600), Some(30)).saturating_add(30).min(3600);
    assert_eq!(http_timeout, 630);
}

fn request(args: Json) -> BackendRequest {
    BackendRequest {
        session_id: "s".to_string(),
        host_workspace: "/w".to_string(),
        authorized_resources: vec!["/w/a".to_string()],
        call_id: "c".to_string(),
        name: "write".to_string(),
        action: String::new(),
        args,
        timeout_secs: Some(30),
    }
}

#[test]
fn workspace_tools_go_where_the_backend_is() {
    let mut slot = WorkspaceBackend::Local(LocalToolExecutionBackend);
    assert_eq!(execute(ToolPlacement::Workspace, &slot, &request(timeout(600))), Execution::Local);
    let http = HttpToolExecutionBackend::new("http://h:1/", "t");
    install_workspace_backend(&mut slot, WorkspaceBackend::Http(http));
    assert_eq!(execute(ToolPlacement::HostOnly, &slot, &request(timeout(600))), Execution::Local);
    match execute(ToolPlacement::Workspace, &slot, &request(timeout(600))) {
        Execution::Remote { url, authorization, call_secs, body, .. } => {
            assert_eq!(url, "http://h:1/execute");
            assert_eq!(authorization, "Bearer t");
            assert_eq!(call_secs, 630);
            assert_eq!(body.get("args"), Some(&timeout(600)));
        }
        e => panic!("{e:?}"),
    }
    use_local_workspace_backend(&mut slot);
    assert_eq!(execute(ToolPlacement::Workspace, &slot, &request(timeout(600))), Execution::Local);
}

#[test]
fn only_calls_that_never_arrived_run_here() {
    assert_eq!(after_remote(&RemoteOutcome::Answered), AfterRemote::UseAnswer);
    let failed = |failure| RemoteOutcome::Failed { failure, error: "e".to_string() };
    assert_eq!(after_remote(&failed(HttpFailure::ConnectionRefused)), AfterRemote::RunLocally);
    assert!(matches!(after_remote(&failed(HttpFailure::TimedOut)), AfterRemote::Fail(_)));
    assert!(matches!(
        after_remote(&RemoteOutcome::Unreadable { error: "e".to_string() }),
        AfterRemote::Fail(_)
    ));
}
