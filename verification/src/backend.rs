//! Where an authorized call runs: in this process, or in a workspace service reached
//! over HTTP.

use vstd::prelude::*;

use crate::exec::handler::{number_in, tool_timeout};
use crate::image_query::query::{drop_slashes, without_slashes};
use crate::json::Json;
use crate::json_view::{
    copy_json, json_obj, json_str, json_view, no_members, pair_views, with_member, JsonView,
};
use crate::manager::ToolPlacement;
use crate::refusal::{plain_refusal, refuse, Refusal, RefusalView};

verus! {

/// A call that is authorized and prepared.
#[derive(Debug, PartialEq, Eq)]
pub struct BackendRequest {
    pub session_id: String,
    pub host_workspace: String,
    pub authorized_resources: Vec<String>,
    pub call_id: String,
    pub name: String,
    pub action: String,
    pub args: Json,
    pub timeout_secs: Option<u64>,
}

/// How a call is run.
#[derive(Debug, PartialEq, Eq)]
pub enum Execution {
    /// In this process.
    Local,
    /// By a request to a service.
    Remote {
        url: String,
        authorization: String,
        connect_secs: u64,
        call_secs: u64,
        body: Json,
    },
}

/// How a call is run.
#[verifier::ext_equal]
pub enum ExecutionView {
    Local,
    Remote {
        url: Seq<char>,
        authorization: Seq<char>,
        connect_secs: u64,
        call_secs: u64,
        body: JsonView,
    },
}

impl View for Execution {
    type V = ExecutionView;

    open spec fn view(&self) -> ExecutionView {
        match self {
            Execution::Local => ExecutionView::Local,
            Execution::Remote { url, authorization, connect_secs, call_secs, body } =>
                ExecutionView::Remote {
                url: url@,
                authorization: authorization@,
                connect_secs: *connect_secs,
                call_secs: *call_secs,
                body: json_view(*body),
            },
        }
    }
}

/// Something that runs authorized calls.
pub trait ToolExecutionBackend {
    /// How a call is run.
    spec fn way(&self, request: BackendRequest) -> ExecutionView;

    /// Says how a call is run.
    fn execute(&self, request: &BackendRequest) -> (r: Execution)
        ensures
            r@ == self.way(*request),
    ;
}

/// Runs calls in this process.
#[derive(Debug, Clone, Copy, Default, PartialEq, Eq, Structural)]
pub struct LocalToolExecutionBackend;

impl ToolExecutionBackend for LocalToolExecutionBackend {
    open spec fn way(&self, request: BackendRequest) -> ExecutionView {
        ExecutionView::Local
    }

    fn execute(&self, request: &BackendRequest) -> (r: Execution) {
        Execution::Local
    }
}

/// Hands calls to a workspace service.
#[derive(Debug, PartialEq, Eq)]
pub struct HttpToolExecutionBackend {
    pub endpoint: String,
    pub token: String,
}

impl HttpToolExecutionBackend {
    /// A service at an address, with the token it asks for.
    pub fn new(endpoint: &str, token: &str) -> (b: Self)
        ensures
            b.endpoint@ == endpoint@,
            b.token@ == token@,
    {
        HttpToolExecutionBackend { endpoint: endpoint.to_owned(), token: token.to_owned() }
    }
}

/// How long a tool may run: what its arguments ask for, else what it is given, from a
/// second to an hour.
pub open spec fn timeout_of(args: Json, given: Option<u64>) -> u64 {
    match number_in(args, "timeout_secs"@, 1, 3600) {
        Some(n) => n,
        None => tool_timeout(given),
    }
}

/// How long a tool may run.
pub fn tool_timeout_from_args(args: &Json, given: Option<u64>) -> (n: u64)
    ensures
        n == timeout_of(*args, given),
        1 <= n <= 3600,
{
    match args.get_u64("timeout_secs") {
        Some(n) => {
            if 1 <= n && n <= 3600 {
                return n;
            }
        },
        None => {},
    }
    match given {
        Some(n) => if n < 1 {
            1
        } else if n > 3600 {
            3600
        } else {
            n
        },
        None => 30,
    }
}

/// How long the request may take: half a minute longer than the tool, an hour at most.
pub open spec fn call_limit(args: Json, given: Option<u64>) -> u64 {
    if timeout_of(args, given) + 30 < 3600 {
        (timeout_of(args, given) + 30) as u64
    } else {
        3600
    }
}

/// The body of the request: an empty action and a missing timeout are left out.
pub open spec fn execute_body(r: BackendRequest) -> JsonView {
    JsonView::Obj(
        seq![
            ("session_id"@, JsonView::Str(r.session_id@)),
            ("workspace"@, JsonView::Str(r.host_workspace@)),
            ("name"@, JsonView::Str(r.name@)),
        ] + (if r.action@.len() > 0 {
            seq![("action"@, JsonView::Str(r.action@))]
        } else {
            Seq::empty()
        }) + seq![("args"@, json_view(r.args)), ("call_id"@, JsonView::Str(r.call_id@))] + (
        match r.timeout_secs {
            Some(n) => seq![("timeout_secs"@, JsonView::Uint(n))],
            None => Seq::empty(),
        }),
    )
}

fn build_execute_body(r: &BackendRequest) -> (body: Json)
    ensures
        json_view(body) == execute_body(*r),
{
    let a: Vec<(String, Json)> = with_member(
        no_members(),
        "session_id",
        json_str(r.session_id.as_str()),
    );
    let b: Vec<(String, Json)> = with_member(a, "workspace", json_str(r.host_workspace.as_str()));
    let mut c: Vec<(String, Json)> = with_member(b, "name", json_str(r.name.as_str()));
    if !r.action.as_str().is_empty() {
        c = with_member(c, "action", json_str(r.action.as_str()));
    }
    let d: Vec<(String, Json)> = with_member(c, "args", copy_json(&r.args));
    let mut e: Vec<(String, Json)> = with_member(d, "call_id", json_str(r.call_id.as_str()));
    match r.timeout_secs {
        Some(n) => {
            e = with_member(e, "timeout_secs", Json::Uint(n));
        },
        None => {},
    }
    proof {
        assert(pair_views(e@) =~= execute_body(*r)->Obj_0);
    }
    json_obj(e)
}

impl ToolExecutionBackend for HttpToolExecutionBackend {
    open spec fn way(&self, request: BackendRequest) -> ExecutionView {
        ExecutionView::Remote {
            url: without_slashes(self.endpoint@) + "/execute"@,
            authorization: "Bearer "@ + self.token@,
            connect_secs: 5,
            call_secs: call_limit(request.args, request.timeout_secs),
            body: execute_body(request),
        }
    }

    fn execute(&self, request: &BackendRequest) -> (r: Execution) {
        let mut url: String = drop_slashes(self.endpoint.as_str());
        url.append("/execute");
        let mut authorization: String = "Bearer ".to_owned();
        authorization.append(self.token.as_str());
        let secs: u64 = tool_timeout_from_args(&request.args, request.timeout_secs);
        Execution::Remote {
            url,
            authorization,
            connect_secs: 5,
            call_secs: if secs + 30 < 3600 {
                secs + 30
            } else {
                3600
            },
            body: build_execute_body(request),
        }
    }
}

/// How a request failed.
#[derive(Debug, Clone, Copy, PartialEq, Eq, Structural)]
pub enum HttpFailure {
    /// The connector could not connect.
    ConnectionFailed,
    /// The service refused the connection.
    ConnectionRefused,
    /// There is no connection.
    NotConnected,
    /// The connection broke.
    ConnectionReset,
    /// The answer took too long.
    TimedOut,
    /// Anything else.
    Other,
}

/// Whether a request never reached the service.
pub open spec fn never_arrived(failure: HttpFailure) -> bool {
    failure == HttpFailure::ConnectionFailed || failure == HttpFailure::ConnectionRefused || failure
        == HttpFailure::NotConnected
}

/// Whether a request never reached the service. A connection that broke and an answer
/// that took too long are no such cases: the call may have run.
pub fn is_connect_failure(failure: HttpFailure) -> (r: bool)
    ensures
        r == never_arrived(failure),
{
    match failure {
        HttpFailure::ConnectionFailed => true,
        HttpFailure::ConnectionRefused => true,
        HttpFailure::NotConnected => true,
        HttpFailure::ConnectionReset => false,
        HttpFailure::TimedOut => false,
        HttpFailure::Other => false,
    }
}

/// What came of a request.
#[derive(Debug, PartialEq, Eq)]
pub enum RemoteOutcome {
    /// It could not be written.
    NotSent,
    /// It failed.
    Failed { failure: HttpFailure, error: String },
    /// It was answered, but not in a form that can be read.
    Unreadable { error: String },
    /// It was answered.
    Answered,
}

/// What is done then.
#[derive(Debug, PartialEq, Eq)]
pub enum AfterRemote {
    /// The call is run in this process.
    RunLocally,
    /// The call fails.
    Fail(Refusal),
    /// The answer is taken.
    UseAnswer,
}

/// What is done then.
#[verifier::ext_equal]
pub enum AfterView {
    RunLocally,
    Fail(RefusalView),
    UseAnswer,
}

impl View for AfterRemote {
    type V = AfterView;

    open spec fn view(&self) -> AfterView {
        match self {
            AfterRemote::RunLocally => AfterView::RunLocally,
            AfterRemote::Fail(r) => AfterView::Fail(r@),
            AfterRemote::UseAnswer => AfterView::UseAnswer,
        }
    }
}

/// The error of a call that failed on its way.
pub open spec fn exec_failed(detail: Seq<char>) -> RefusalView {
    plain_refusal(
        "WORKSPACE_EXEC_FAILED"@,
        "workspace serve execute failed: "@ + detail,
        Some(
            "The workspace service did not respond in time — it may still be executing the tool (e.g. a long-running exec). The call was NOT retried locally to avoid duplicate side effects. If the previous call is still running, wait for it, then resend if needed."@,
        ),
    )
}

/// What is done after a request: a call is run in this process only when it cannot have
/// reached the service.
pub open spec fn after(outcome: RemoteOutcome) -> AfterView {
    match outcome {
        RemoteOutcome::NotSent => AfterView::RunLocally,
        RemoteOutcome::Failed { failure, error } => if never_arrived(failure) {
            AfterView::RunLocally
        } else {
            AfterView::Fail(exec_failed(error@))
        },
        RemoteOutcome::Unreadable { error } => AfterView::Fail(
            exec_failed("invalid execute response: "@ + error@),
        ),
        RemoteOutcome::Answered => AfterView::UseAnswer,
    }
}

fn workspace_exec_failed(detail: &str) -> (r: Refusal)
    ensures
        r@ == exec_failed(detail@),
{
    let mut message: String = "workspace serve execute failed: ".to_owned();
    message.append(detail);
    refuse(
        "WORKSPACE_EXEC_FAILED",
        message,
        Some(
            "The workspace service did not respond in time — it may still be executing the tool (e.g. a long-running exec). The call was NOT retried locally to avoid duplicate side effects. If the previous call is still running, wait for it, then resend if needed.",
        ),
    )
}

/// Says what is done after a request.
pub fn after_remote(outcome: &RemoteOutcome) -> (r: AfterRemote)
    ensures
        r@ == after(*outcome),
{
    match outcome {
        RemoteOutcome::NotSent => AfterRemote::RunLocally,
        RemoteOutcome::Failed { failure, error } => {
            if is_connect_failure(*failure) {
                AfterRemote::RunLocally
            } else {
                AfterRemote::Fail(workspace_exec_failed(error.as_str()))
            }
        },
        RemoteOutcome::Unreadable { error } => {
            let mut detail: String = "invalid execute response: ".to_owned();
            detail.append(error.as_str());
            AfterRemote::Fail(workspace_exec_failed(detail.as_str()))
        },
        RemoteOutcome::Answered => AfterRemote::UseAnswer,
    }
}

/// The backend that workspace tools run in.
#[derive(Debug, PartialEq, Eq)]
pub enum WorkspaceBackend {
    Local(LocalToolExecutionBackend),
    Http(HttpToolExecutionBackend),
}

/// Makes a backend the one that workspace tools run in.
pub fn install_workspace_backend(slot: &mut WorkspaceBackend, backend: WorkspaceBackend)
    ensures
        *final(slot) == backend,
{
    *slot = backend;
}

/// Makes workspace tools run in this process.
pub fn use_local_workspace_backend(slot: &mut WorkspaceBackend)
    ensures
        *final(slot) == WorkspaceBackend::Local(LocalToolExecutionBackend),
{
    install_workspace_backend(slot, WorkspaceBackend::Local(LocalToolExecutionBackend));
}

/// How a call is run: a tool of the host always in this process, a tool of the
/// workspace as its backend says.
pub open spec fn routed(
    placement: ToolPlacement,
    slot: WorkspaceBackend,
    request: BackendRequest,
) -> ExecutionView {
    match placement {
        ToolPlacement::HostOnly => ExecutionView::Local,
        ToolPlacement::Workspace => match slot {
            WorkspaceBackend::Local(b) => b.way(request),
            WorkspaceBackend::Http(b) => b.way(request),
        },
    }
}

/// Says how a call is run.
pub fn execute(placement: ToolPlacement, slot: &WorkspaceBackend, request: &BackendRequest) -> (r:
    Execution)
    ensures
        r@ == routed(placement, *slot, *request),
{
    match placement {
        ToolPlacement::HostOnly => LocalToolExecutionBackend.execute(request),
        ToolPlacement::Workspace => match slot {
            WorkspaceBackend::Local(b) => b.execute(request),
            WorkspaceBackend::Http(b) => b.execute(request),
        },
    }
}

/// No call runs twice: one that may have reached the service is never run again in this
/// process.
pub proof fn no_call_runs_twice(outcome: RemoteOutcome)
    requires
        after(outcome) is RunLocally,
    ensures
        outcome is NotSent || (outcome is Failed && never_arrived(outcome->failure)),
{
}

/// The request outlasts the tool, unless the tool itself may run for an hour.
pub proof fn request_outlasts_the_tool(args: Json, given: Option<u64>)
    ensures
        call_limit(args, given) > timeout_of(args, given) || call_limit(args, given) == 3600,
        call_limit(args, given) <= 3600,
{
}

} // verus!
