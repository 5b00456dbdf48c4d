//! Who may run a call: what lets a call through, asks for approval or denies
//! it.

use vstd::prelude::*;

use crate::json::{texts, Json};
use crate::manager::ToolCategory;
use crate::order::{paths_in_order, sort_paths};

verus! {

/// Whether calls come from a subagent, which has nobody to ask for approval.
#[derive(Debug, Clone, Copy, PartialEq, Eq, Structural)]
pub struct Sandbox {
    pub on: bool,
}

/// The sandbox after it was turned on or off a number of times; before that it is off.
pub open spec fn sandbox_after(turns: Seq<bool>) -> Sandbox {
    Sandbox { on: turns.len() > 0 && turns.last() }
}

impl Sandbox {
    /// A sandbox that nobody has turned on.
    pub fn new() -> (r: Self)
        ensures
            !r.on,
            r == sandbox_after(Seq::<bool>::empty()),
    {
        Sandbox { on: false }
    }
}

/// Turns the sandbox of a subagent on or off.
pub fn set_subagent_sandbox(sandbox: &mut Sandbox, on: bool)
    ensures
        final(sandbox).on == on,
        forall|turns: Seq<bool>|
            *old(sandbox) == #[trigger] sandbox_after(turns) ==> *final(sandbox) == sandbox_after(
                turns.push(on),
            ),
{
    sandbox.on = on;
}

/// Whether the sandbox of a subagent is on: as it was turned last, and off before that.
pub fn is_subagent_sandbox(sandbox: &Sandbox) -> (r: bool)
    ensures
        r == sandbox.on,
        forall|turns: Seq<bool>|
            *sandbox == #[trigger] sandbox_after(turns) ==> r == (turns.len() > 0 && turns.last()),
{
    sandbox.on
}

/// How much is at stake.
#[derive(Debug, Clone, Copy, PartialEq, Eq, Structural)]
pub enum PermissionRisk {
    Low,
    Medium,
    High,
}

/// A call on its way to a tool.
#[derive(Debug, PartialEq, Eq)]
pub struct ToolInvocation {
    pub session_id: String,
    pub call_id: String,
    pub tool_name: String,
    pub action: String,
    pub args: Json,
    pub category: ToolCategory,
}

/// What the permission policy says of a call.
#[derive(Debug, PartialEq, Eq)]
pub enum PermissionDecision {
    AutoApprove,
    AskUser {
        reason: String,
        paths: Vec<String>,
        category: ToolCategory,
        risk: PermissionRisk,
        consequence: String,
    },
}

/// Proof that a call may run. Only this module makes one.
#[derive(Debug, PartialEq, Eq)]
pub struct AuthorizedToolCall {
    invocation: ToolInvocation,
    resources: Vec<String>,
    workspace_root: String,
}

impl AuthorizedToolCall {
    /// The call.
    pub closed spec fn call(&self) -> ToolInvocation {
        self.invocation
    }

    /// The files that it may touch.
    pub closed spec fn files(&self) -> Seq<Seq<char>> {
        texts(self.resources@)
    }

    /// The workspace that it runs in.
    pub closed spec fn root(&self) -> Seq<char> {
        self.workspace_root@
    }

    /// The session of the call.
    pub fn session_id(&self) -> (r: &str)
        ensures
            r@ == self.call().session_id@,
    {
        self.invocation.session_id.as_str()
    }

    /// The name of the call.
    pub fn call_id(&self) -> (r: &str)
        ensures
            r@ == self.call().call_id@,
    {
        self.invocation.call_id.as_str()
    }

    /// The tool that is called.
    pub fn tool_name(&self) -> (r: &str)
        ensures
            r@ == self.call().tool_name@,
    {
        self.invocation.tool_name.as_str()
    }

    /// The action of the tool.
    pub fn action(&self) -> (r: &str)
        ensures
            r@ == self.call().action@,
    {
        self.invocation.action.as_str()
    }

    /// The arguments.
    pub fn args(&self) -> (r: &Json)
        ensures
            *r == self.call().args,
    {
        &self.invocation.args
    }

    /// The files that it may touch.
    pub fn resources(&self) -> (r: &[String])
        ensures
            texts(r@) == self.files(),
    {
        self.resources.as_slice()
    }

    /// The workspace that it runs in.
    pub fn workspace_root(&self) -> (r: &str)
        ensures
            r@ == self.root(),
    {
        self.workspace_root.as_str()
    }
}

/// A call that waits for approval. Approving it uses it up.
#[derive(Debug, PartialEq, Eq)]
pub struct PermissionChallenge {
    invocation: ToolInvocation,
    resources: Vec<String>,
    workspace_root: String,
    reason: String,
    category: ToolCategory,
    risk: PermissionRisk,
    consequence: String,
    created_at: u64,
}

/// Why an approval does not count.
#[derive(Debug, Clone, Copy, PartialEq, Eq, Structural)]
pub enum ApprovalError {
    Rejected,
    Expired,
    MissingOrReplayed,
}

/// How long an approval may take, in milliseconds.
pub const APPROVAL_TTL: u64 = 120000;

impl PermissionChallenge {
    /// The call.
    pub closed spec fn call(&self) -> ToolInvocation {
        self.invocation
    }

    /// The files that it would touch.
    pub closed spec fn files(&self) -> Seq<Seq<char>> {
        texts(self.resources@)
    }

    /// The workspace that it would run in.
    pub closed spec fn root(&self) -> Seq<char> {
        self.workspace_root@
    }

    /// Why approval is needed.
    pub closed spec fn why(&self) -> Seq<char> {
        self.reason@
    }

    /// What the call does.
    pub closed spec fn kind(&self) -> ToolCategory {
        self.category
    }

    /// How much is at stake.
    pub closed spec fn stake(&self) -> PermissionRisk {
        self.risk
    }

    /// What approving it means.
    pub closed spec fn effect(&self) -> Seq<char> {
        self.consequence@
    }

    /// When it was made, in milliseconds.
    pub closed spec fn made_at(&self) -> u64 {
        self.created_at
    }

    /// The session of the call.
    pub fn session_id(&self) -> (r: &str)
        ensures
            r@ == self.call().session_id@,
    {
        self.invocation.session_id.as_str()
    }

    /// The name of the call.
    pub fn call_id(&self) -> (r: &str)
        ensures
            r@ == self.call().call_id@,
    {
        self.invocation.call_id.as_str()
    }

    /// The tool that is called.
    pub fn tool_name(&self) -> (r: &str)
        ensures
            r@ == self.call().tool_name@,
    {
        self.invocation.tool_name.as_str()
    }

    /// The action of the tool.
    pub fn action(&self) -> (r: &str)
        ensures
            r@ == self.call().action@,
    {
        self.invocation.action.as_str()
    }

    /// The arguments.
    pub fn normalized_args(&self) -> (r: &Json)
        ensures
            *r == self.call().args,
    {
        &self.invocation.args
    }

    /// The files that it would touch.
    pub fn resources(&self) -> (r: &[String])
        ensures
            texts(r@) == self.files(),
    {
        self.resources.as_slice()
    }

    /// The workspace that it would run in.
    pub fn workspace_root(&self) -> (r: &str)
        ensures
            r@ == self.root(),
    {
        self.workspace_root.as_str()
    }

    /// Why approval is needed.
    pub fn reason(&self) -> (r: &str)
        ensures
            r@ == self.why(),
    {
        self.reason.as_str()
    }

    /// What the call does.
    pub fn category(&self) -> (r: ToolCategory)
        ensures
            r == self.kind(),
    {
        self.category
    }

    /// How much is at stake.
    pub fn risk(&self) -> (r: PermissionRisk)
        ensures
            r == self.stake(),
    {
        self.risk
    }

    /// What approving it means.
    pub fn consequence(&self) -> (r: &str)
        ensures
            r@ == self.effect(),
    {
        self.consequence.as_str()
    }

    /// Whether it is older than `ttl`, both in milliseconds.
    pub fn is_expired(&self, ttl: u64, now: u64) -> (r: bool)
        ensures
            r == (now - self.made_at() > ttl),
    {
        now >= self.created_at && now - self.created_at > ttl
    }

    /// Approves or rejects the call, within a time.
    pub fn approve_with_ttl(self, approved: bool, ttl: u64, now: u64) -> (r: Result<
        AuthorizedToolCall,
        ApprovalError,
    >)
        ensures
            if !approved {
                r == Err::<AuthorizedToolCall, ApprovalError>(ApprovalError::Rejected)
            } else if now - self.made_at() > ttl {
                r == Err::<AuthorizedToolCall, ApprovalError>(ApprovalError::Expired)
            } else {
                r matches Ok(a) && a.call() == (ToolInvocation {
                    category: self.kind(),
                    ..self.call()
                }) && a.files() == self.files() && a.root() == self.root()
            },
    {
        if !approved {
            return Err(ApprovalError::Rejected);
        }
        if self.is_expired(ttl, now) {
            return Err(ApprovalError::Expired);
        }
        let i: ToolInvocation = self.invocation;
        Ok(
            AuthorizedToolCall {
                invocation: ToolInvocation {
                    session_id: i.session_id,
                    call_id: i.call_id,
                    tool_name: i.tool_name,
                    action: i.action,
                    args: i.args,
                    category: self.category,
                },
                resources: self.resources,
                workspace_root: self.workspace_root,
            },
        )
    }

    /// Approves or rejects the call, within two minutes.
    pub fn approve(self, approved: bool, now: u64) -> (r: Result<AuthorizedToolCall, ApprovalError>)
        ensures
            if !approved {
                r == Err::<AuthorizedToolCall, ApprovalError>(ApprovalError::Rejected)
            } else if now - self.made_at() > APPROVAL_TTL {
                r == Err::<AuthorizedToolCall, ApprovalError>(ApprovalError::Expired)
            } else {
                r matches Ok(a) && a.call() == (ToolInvocation {
                    category: self.kind(),
                    ..self.call()
                }) && a.files() == self.files() && a.root() == self.root()
            },
    {
        self.approve_with_ttl(approved, APPROVAL_TTL, now)
    }
}

/// What is said to a call.
#[derive(Debug, PartialEq, Eq)]
pub enum Admission {
    Authorized(AuthorizedToolCall),
    ApprovalRequired(PermissionChallenge),
    Denied(String),
}

/// The answer, by kind.
#[derive(Debug, Clone, Copy, PartialEq, Eq, Structural)]
pub enum Gate {
    Open,
    Ask,
    Closed,
}

/// Whether a call of a kind only touches files.
pub open spec fn on_files(kind: ToolCategory) -> bool {
    kind == ToolCategory::Read || kind == ToolCategory::Write
}

/// What is answered to a call of a kind. In the sandbox of a subagent, where nobody can
/// be asked, file operations inside the workspace pass and all else is denied, whatever
/// the policy says. Otherwise a call that needs no approval passes, and the user is asked
/// about any other.
pub open spec fn gate(
    kind: ToolCategory,
    decision: PermissionDecision,
    sandbox: bool,
    inside: bool,
) -> Gate {
    if sandbox {
        if on_files(kind) && (decision matches PermissionDecision::AskUser { category, .. }
            ==> on_files(category)) && inside {
            Gate::Open
        } else {
            Gate::Closed
        }
    } else {
        match decision {
            PermissionDecision::AutoApprove => Gate::Open,
            PermissionDecision::AskUser { .. } => Gate::Ask,
        }
    }
}

/// Why a call of a kind is denied: what the policy says of it, if it says anything.
pub open spec fn denial(kind: ToolCategory, decision: PermissionDecision) -> Seq<char> {
    match decision {
        PermissionDecision::AskUser { reason, .. } => reason@,
        PermissionDecision::AutoApprove => if on_files(kind) {
            "a path lies outside the workspace"@
        } else {
            "exec and net calls are not allowed"@
        },
    }
}

fn touches_files(kind: ToolCategory) -> (r: bool)
    ensures
        r == on_files(kind),
{
    kind == ToolCategory::Read || kind == ToolCategory::Write
}

/// Decides about a call. `inside` says whether all files that the call touches lie in the
/// workspace; `targets` are the files that the call names.
pub fn decide_admission(
    invocation: ToolInvocation,
    decision: PermissionDecision,
    sandbox: &Sandbox,
    inside: bool,
    targets: &[String],
    workspace_root: String,
    now: u64,
) -> (r: Admission)
    ensures
        match gate(invocation.category, decision, sandbox.on, inside) {
            Gate::Open => r matches Admission::Authorized(a) && a.call() == invocation && a.root()
                == workspace_root@ && paths_in_order(a.files()) && (forall|t: Seq<char>| #[trigger]
                a.files().contains(t) <==> texts(targets@).contains(t)),
            Gate::Closed => r matches Admission::Denied(d) && d@ == "subagent sandbox denied '"@
                + invocation.tool_name@ + "': "@ + denial(invocation.category, decision),
            Gate::Ask => r matches Admission::ApprovalRequired(c) && c.call() == invocation
                && c.root() == workspace_root@ && c.made_at() == now && (decision
                matches PermissionDecision::AskUser { reason, paths, category, risk, consequence }
                && c.why() == reason@ && c.files() == texts(paths@) && c.kind() == category
                && c.stake() == risk && c.effect() == consequence@),
        },
{
    if is_subagent_sandbox(sandbox) {
        let file_op: bool = touches_files(invocation.category);
        let asked_of_files: bool = match &decision {
            PermissionDecision::AskUser { category, .. } => touches_files(*category),
            PermissionDecision::AutoApprove => true,
        };
        if file_op && asked_of_files && inside {
            return Admission::Authorized(
                AuthorizedToolCall { invocation, resources: sort_paths(targets), workspace_root },
            );
        }
        let mut message: String = "subagent sandbox denied '".to_owned();
        message.append(invocation.tool_name.as_str());
        message.append("': ");
        match &decision {
            PermissionDecision::AskUser { reason, .. } => {
                message.append(reason.as_str());
            },
            PermissionDecision::AutoApprove => {
                message.append(
                    if file_op {
                        "a path lies outside the workspace"
                    } else {
                        "exec and net calls are not allowed"
                    },
                );
            },
        }
        return Admission::Denied(message);
    }
    match decision {
        PermissionDecision::AutoApprove => Admission::Authorized(
            AuthorizedToolCall { invocation, resources: sort_paths(targets), workspace_root },
        ),
        PermissionDecision::AskUser { reason, paths, category, risk, consequence } => {
            Admission::ApprovalRequired(
                PermissionChallenge {
                    invocation,
                    resources: paths,
                    workspace_root,
                    reason,
                    category,
                    risk,
                    consequence,
                    created_at: now,
                },
            )
        },
    }
}

/// A subagent is never left waiting: in its sandbox nothing asks for approval.
pub proof fn sandbox_never_asks(kind: ToolCategory, decision: PermissionDecision, inside: bool)
    ensures
        gate(kind, decision, true, inside) != Gate::Ask,
{
}

/// A subagent does not get out: whatever the policy says, only file operations inside the
/// workspace pass, and commands and network calls never do.
pub proof fn sandbox_lets_nothing_out(
    kind: ToolCategory,
    decision: PermissionDecision,
    inside: bool,
)
    ensures
        gate(kind, decision, true, inside) == Gate::Open ==> inside && (kind == ToolCategory::Read
            || kind == ToolCategory::Write),
        kind == ToolCategory::Exec || kind == ToolCategory::Net ==> gate(
            kind,
            decision,
            true,
            inside,
        ) == Gate::Closed,
{
}

/// A subagent can work: its file operations inside the workspace pass, whatever the
/// policy says of them as file operations.
pub proof fn sandbox_lets_file_work_pass(kind: ToolCategory, decision: PermissionDecision)
    requires
        on_files(kind),
        decision matches PermissionDecision::AskUser { category, .. } ==> on_files(category),
    ensures
        gate(kind, decision, true, true) == Gate::Open,
{
}

/// Outside the sandbox nothing that needs approval passes without it.
pub proof fn approval_is_not_skipped(
    kind: ToolCategory,
    decision: PermissionDecision,
    inside: bool,
)
    requires
        decision is AskUser,
    ensures
        gate(kind, decision, false, inside) == Gate::Ask,
{
}

} // verus!
