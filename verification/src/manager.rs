//! The tools: which there are, which may be called, what runs, and what it came to.

use vstd::prelude::*;

use crate::bounds::{
    no_path_escapes_the_directory, parts, parts_from, parts_of, path_parts, path_within_workspace,
    place, plain, seen_from, seen_from_the_root, within, Part,
};
use crate::format::{
    byte_len, byte_length, chars_fitting, fitting, lemma_byte_len_concat, lemma_fitting_bound,
};
use crate::json::{arr_at, str_at, string_items, strings_of, text_eq, texts, Json};
use crate::keyed::Keyed;
use crate::lines::{join, join_parts, views};
use crate::order::{in_order, sort_texts};
use crate::outside::{debug_format, debug_text};
use crate::text::{chars_of, slice_of, string_of};

verus! {

/// How much harm a tool can do.
#[derive(Debug, Clone, Copy, PartialEq, Eq, Structural)]
pub enum ToolRisk {
    ReadOnly,
    Write,
    Destructive,
    Administrative,
}

/// What a tool does.
#[derive(Debug, Clone, Copy, PartialEq, Eq, Structural)]
pub enum ToolCategory {
    Read,
    Write,
    Exec,
    Net,
}

/// Where a tool runs.
#[derive(Debug, Clone, Copy, PartialEq, Eq, Structural)]
pub enum ToolPlacement {
    HostOnly,
    Workspace,
}

/// What is known of a tool.
#[derive(Debug, Clone, Copy, PartialEq, Eq, Structural)]
pub struct ToolInfo {
    pub risk: ToolRisk,
    pub category: ToolCategory,
    pub placement: ToolPlacement,
    pub default_timeout_secs: u64,
}

/// What the safety policy says of a call.
#[derive(Debug, PartialEq, Eq)]
pub enum SafetyVerdict {
    Allow,
    Block(String),
}

/// How a call went.
#[derive(Debug, PartialEq, Eq)]
pub struct ToolExecMeta {
    pub name: String,
    pub elapsed_ms: u64,
    pub output_size: u128,
    pub success: bool,
    pub args_summary: String,
}

/// What a call came to.
#[derive(Debug, PartialEq, Eq)]
pub struct ToolExecReport {
    pub content: String,
    pub success: bool,
    pub meta: ToolExecMeta,
    pub files_affected: Vec<String>,
}

/// What a call came to.
#[verifier::ext_equal]
pub struct ReportView {
    pub content: Seq<char>,
    pub success: bool,
    pub name: Seq<char>,
    pub elapsed_ms: u64,
    pub output_size: nat,
    pub meta_success: bool,
    pub args_summary: Seq<char>,
    pub files_affected: Seq<Seq<char>>,
}

impl View for ToolExecReport {
    type V = ReportView;

    open spec fn view(&self) -> ReportView {
        ReportView {
            content: self.content@,
            success: self.success,
            name: self.meta.name@,
            elapsed_ms: self.meta.elapsed_ms,
            output_size: self.meta.output_size as nat,
            meta_success: self.meta.success,
            args_summary: self.meta.args_summary@,
            files_affected: texts(self.files_affected@),
        }
    }
}

/// What the calls have come to so far.
#[derive(Debug, PartialEq, Eq)]
pub struct ToolStats {
    pub calls_total: u32,
    pub failures: u32,
    pub files_read: Vec<String>,
    pub files_written: Vec<String>,
}

/// A call that may run.
#[derive(Debug, PartialEq, Eq)]
pub struct PreparedCall {
    pub id: String,
    pub name: String,
    pub placement: ToolPlacement,
    pub timeout_secs: u64,
}

/// The tools and the calls.
pub struct ToolManager {
    pub tools: Keyed<ToolInfo>,
    /// Tools that come and go while the program runs.
    pub dynamic: Keyed<ToolInfo>,
    /// The tools that may be called; all without a list.
    pub allowed: Option<Vec<String>>,
    /// The calls that run, and whether each has been cancelled.
    pub inflight: Keyed<bool>,
    pub calls_total: u32,
    pub failures: u32,
    pub files_read: Vec<String>,
    pub files_written: Vec<String>,
}

/// What the manager knows.
#[verifier::ext_equal]
pub struct ManagerView {
    pub tools: Map<Seq<char>, ToolInfo>,
    pub dynamic: Map<Seq<char>, ToolInfo>,
    pub allowed: Option<Seq<Seq<char>>>,
    pub inflight: Map<Seq<char>, bool>,
    pub calls_total: u32,
    pub failures: u32,
    pub files_read: Seq<Seq<char>>,
    pub files_written: Seq<Seq<char>>,
}

impl View for ToolManager {
    type V = ManagerView;

    open spec fn view(&self) -> ManagerView {
        ManagerView {
            tools: self.tools@,
            dynamic: self.dynamic@,
            allowed: match self.allowed {
                Some(a) => Some(texts(a@)),
                None => None,
            },
            inflight: self.inflight@,
            calls_total: self.calls_total,
            failures: self.failures,
            files_read: texts(self.files_read@),
            files_written: texts(self.files_written@),
        }
    }
}

/// The start of the names of tools that come from elsewhere.
pub const MCP_DYNAMIC_PREFIX: &'static str = "mcp__";

/// How long the description of such a tool may be, in bytes.
pub const DYNAMIC_DESCRIPTION_LIMIT: u128 = 2048;

/// A description that is short enough: as it is, or cut and marked.
pub open spec fn short_description(s: Seq<char>) -> Seq<char> {
    if byte_len(s) <= DYNAMIC_DESCRIPTION_LIMIT {
        s
    } else {
        s.take(fitting(s, 2036) as int) + " [truncated]"@
    }
}

/// Cuts a description that is too long, between two characters, and marks it.
pub fn truncate_description(description: &str) -> (out: String)
    ensures
        out@ == short_description(description@),
{
    let s: Vec<char> = chars_of(description);
    if byte_length(s.as_slice()) <= DYNAMIC_DESCRIPTION_LIMIT {
        return description.to_owned();
    }
    let k: usize = chars_fitting(s.as_slice(), 2036);
    let head: Vec<char> = slice_of(s.as_slice(), 0, k);
    proof {
        assert(head@ =~= s@.take(k as int));
    }
    let mut out: String = string_of(head.as_slice());
    out.append(" [truncated]");
    out
}

/// The full name of a tool of a server.
pub open spec fn dynamic_name(server: Seq<char>, tool: Seq<char>) -> Seq<char> {
    "mcp__"@ + server + "__"@ + tool
}

/// The entry of a tool that a server offers: its full name, its description cut to
/// size, and what is known of it. Its risk is administrative: what it may do is decided
/// by its category.
pub fn build_dynamic_tool(
    server: &str,
    tool_name: &str,
    description: &str,
    placement: ToolPlacement,
    category: ToolCategory,
    default_timeout_secs: u64,
) -> (r: (String, String, ToolInfo))
    ensures
        r.0@ == dynamic_name(server@, tool_name@),
        r.1@ == short_description(description@),
        r.2 == (ToolInfo {
            risk: ToolRisk::Administrative,
            category,
            placement,
            default_timeout_secs,
        }),
{
    let mut name: String = "mcp__".to_owned();
    name.append(server);
    name.append("__");
    name.append(tool_name);
    (
        name,
        truncate_description(description),
        ToolInfo { risk: ToolRisk::Administrative, category, placement, default_timeout_secs },
    )
}

/// Whether there is a tool of a name.
pub open spec fn known(m: ManagerView, name: Seq<char>) -> bool {
    m.tools.contains_key(name) || m.dynamic.contains_key(name)
}

/// The tool of a name: one of the fixed tools first.
pub open spec fn tool_of(m: ManagerView, name: Seq<char>) -> Option<ToolInfo> {
    if m.tools.contains_key(name) {
        Some(m.tools[name])
    } else if m.dynamic.contains_key(name) {
        Some(m.dynamic[name])
    } else {
        None
    }
}

/// The names of some that are known, in order.
pub open spec fn known_names(m: ManagerView, names: Seq<Seq<char>>) -> Seq<Seq<char>>
    decreases names.len(),
{
    if names.len() == 0 {
        Seq::empty()
    } else if known(m, names.last()) {
        known_names(m, names.drop_last()).push(names.last())
    } else {
        known_names(m, names.drop_last())
    }
}

/// Whether a tool may be called.
pub open spec fn permitted(m: ManagerView, name: Seq<char>) -> bool {
    m.allowed matches Some(a) ==> a.contains(name)
}

/// A report of a call that was not run.
pub open spec fn not_run(name: Seq<char>, message: Seq<char>) -> ReportView {
    ReportView {
        content: message,
        success: false,
        name,
        elapsed_ms: 0,
        output_size: byte_len(message),
        meta_success: false,
        args_summary: Seq::empty(),
        files_affected: Seq::empty(),
    }
}

fn report_not_run(name: &str, message: String) -> (r: ToolExecReport)
    ensures
        r@ == not_run(name@, message@),
{
    let size: u128 = byte_length(chars_of(message.as_str()).as_slice());
    let files: Vec<String> = Vec::new();
    proof {
        assert(texts(files@) =~= Seq::<Seq<char>>::empty());
    }
    ToolExecReport {
        content: message,
        success: false,
        files_affected: files,
        meta: ToolExecMeta {
            name: name.to_owned(),
            elapsed_ms: 0,
            output_size: size,
            success: false,
            args_summary: String::new(),
        },
    }
}

/// Why a call is not run, if it is not: the tool must be allowed and known, and the
/// safety policy must not block it.
pub open spec fn refusal_of(m: ManagerView, name: Seq<char>, verdict: SafetyVerdict) -> Option<
    Seq<char>,
> {
    if !permitted(m, name) {
        Some(
            "[ERROR] Tool '"@ + name
                + "' is not in the allowed list for this subagent. Allowed tools: ["@ + join(
                m.allowed->0,
                ", "@,
            ) + "]"@,
        )
    } else if !known(m, name) {
        Some("[ERROR] Unknown tool: "@ + name)
    } else {
        match verdict {
            SafetyVerdict::Block(reason) => Some("[ERROR] "@ + reason@),
            SafetyVerdict::Allow => None,
        }
    }
}

fn contains_text(list: &[String], x: &str) -> (r: bool)
    ensures
        r == texts(list@).contains(x@),
{
    let mut i: usize = 0;
    while i < list.len()
        invariant
            i <= list@.len(),
            forall|j: int| 0 <= j < i ==> #[trigger] texts(list@)[j] != x@,
        decreases list@.len() - i,
    {
        proof {
            assert(texts(list@)[i as int] == list@[i as int]@);
        }
        if text_eq(list[i].as_str(), x) {
            return true;
        }
        i = i + 1;
    }
    false
}

fn join_texts(list: &[String], sep: &str) -> (out: String)
    ensures
        out@ == join(texts(list@), sep@),
{
    let mut pieces: Vec<Vec<char>> = Vec::new();
    let mut i: usize = 0;
    while i < list.len()
        invariant
            i <= list@.len(),
            pieces@.len() == i,
            forall|j: int| 0 <= j < i ==> (#[trigger] pieces@[j])@ == list@[j]@,
        decreases list@.len() - i,
    {
        pieces.push(chars_of(list[i].as_str()));
        i = i + 1;
    }
    proof {
        assert(views(pieces@) =~= texts(list@));
    }
    string_of(join_parts(pieces.as_slice(), chars_of(sep).as_slice()).as_slice())
}

impl ToolManager {
    /// No tools and no calls.
    pub fn new() -> (m: Self)
        ensures
            m@ == (ManagerView {
                tools: Map::empty(),
                dynamic: Map::empty(),
                allowed: None,
                inflight: Map::empty(),
                calls_total: 0,
                failures: 0,
                files_read: Seq::empty(),
                files_written: Seq::empty(),
            }),
    {
        let m = ToolManager {
            tools: Keyed::new(),
            dynamic: Keyed::new(),
            allowed: None,
            inflight: Keyed::new(),
            calls_total: 0,
            failures: 0,
            files_read: Vec::new(),
            files_written: Vec::new(),
        };
        proof {
            assert(texts(m.files_read@) =~= Seq::<Seq<char>>::empty());
            assert(texts(m.files_written@) =~= Seq::<Seq<char>>::empty());
        }
        m
    }

    /// Adds a tool, in place of one of the same name.
    pub fn register_with_placement(&mut self, key: &str, info: ToolInfo, placement: ToolPlacement)
        ensures
            final(self)@ == (ManagerView {
                tools: old(self)@.tools.insert(key@, ToolInfo { placement, ..info }),
                ..old(self)@
            }),
    {
        let entry: ToolInfo = ToolInfo {
            risk: info.risk,
            category: info.category,
            placement,
            default_timeout_secs: info.default_timeout_secs,
        };
        self.tools.insert(key.to_owned(), entry);
    }

    /// Adds a tool that runs on the host.
    pub fn register(&mut self, key: &str, info: ToolInfo)
        ensures
            final(self)@ == (ManagerView {
                tools: old(self)@.tools.insert(
                    key@,
                    ToolInfo { placement: ToolPlacement::HostOnly, ..info },
                ),
                ..old(self)@
            }),
    {
        self.register_with_placement(key, info, ToolPlacement::HostOnly);
    }

    /// Adds a tool that comes and goes; a name that is taken is refused.
    pub fn register_dynamic(&mut self, name: &str, info: ToolInfo) -> (r: Result<(), String>)
        ensures
            if known(old(self)@, name@) {
                final(self)@ == old(self)@ && (r matches Err(e) && e@
                    == "dynamic tool name collides: "@ + debug_text(name@))
            } else {
                r is Ok && final(self)@ == (ManagerView {
                    dynamic: old(self)@.dynamic.insert(name@, info),
                    ..old(self)@
                })
            },
    {
        if self.tools.contains_key(name) || self.dynamic.contains_key(name) {
            let mut e: String = "dynamic tool name collides: ".to_owned();
            e.append(debug_format(name).as_str());
            return Err(e);
        }
        self.dynamic.insert(name.to_owned(), info);
        Ok(())
    }

    /// Takes all tools out that come and go.
    pub fn clear_dynamic(&mut self)
        ensures
            final(self)@ == (ManagerView { dynamic: Map::empty(), ..old(self)@ }),
    {
        self.dynamic.clear();
    }

    /// The names of the tools that come and go, in order, each once.
    pub fn dynamic_names(&self) -> (out: Vec<String>)
        ensures
            in_order(texts(out@)),
            texts(out@).no_duplicates(),
            forall|k: Seq<char>| #[trigger]
                self@.dynamic.contains_key(k) <==> texts(out@).contains(k),
    {
        let keys: Vec<String> = self.dynamic.keys();
        let out: Vec<String> = sort_texts(keys);
        proof {
            lemma_same_members(texts(keys@), texts(out@));
        }
        out
    }

    /// The fixed tool of a name.
    pub fn lookup(&self, name: &str) -> (r: Option<&ToolInfo>)
        ensures
            match r {
                Some(t) => self@.tools.contains_key(name@) && self@.tools[name@] == *t,
                None => !self@.tools.contains_key(name@),
            },
    {
        self.tools.get(name)
    }

    fn find(&self, name: &str) -> (r: Option<&ToolInfo>)
        ensures
            match r {
                Some(t) => tool_of(self@, name@) == Some(*t),
                None => tool_of(self@, name@) is None,
            },
    {
        match self.tools.get(name) {
            Some(t) => Some(t),
            None => self.dynamic.get(name),
        }
    }

    /// What a tool does.
    pub fn category_of(&self, name: &str) -> (r: Option<ToolCategory>)
        ensures
            r == match tool_of(self@, name@) {
                Some(t) => Some(t.category),
                None => None,
            },
    {
        match self.find(name) {
            Some(t) => Some(t.category),
            None => None,
        }
    }

    /// How much harm a tool can do.
    pub fn risk_of(&self, name: &str) -> (r: Option<ToolRisk>)
        ensures
            r == match tool_of(self@, name@) {
                Some(t) => Some(t.risk),
                None => None,
            },
    {
        match self.find(name) {
            Some(t) => Some(t.risk),
            None => None,
        }
    }

    /// Sets which tools may be called, and the session that the calls are made in.
    pub fn apply_init(&mut self, allowed_tools: &[String], session: &mut String, session_seed: &str)
        ensures
            final(self)@ == (ManagerView {
                allowed: {
                    let names = known_names(old(self)@, texts(allowed_tools@));
                    if names.len() == 0 {
                        None
                    } else {
                        Some(names)
                    }
                },
                ..old(self)@
            }),
            final(session)@ == session_seed@,
    {
        self.set_allowed(allowed_tools);
        *session = session_seed.to_owned();
    }

    /// Sets which tools may be called. Names that are not known are left out; when none
    /// is left, all tools may be called.
    pub fn set_allowed(&mut self, allowed_tools: &[String])
        ensures
            final(self)@ == (ManagerView {
                allowed: {
                    let names = known_names(old(self)@, texts(allowed_tools@));
                    if names.len() == 0 {
                        None
                    } else {
                        Some(names)
                    }
                },
                ..old(self)@
            }),
    {
        let mut kept: Vec<String> = Vec::new();
        let ghost all = texts(allowed_tools@);
        let mut i: usize = 0;
        proof {
            assert(all.take(0) =~= Seq::<Seq<char>>::empty());
            assert(texts(kept@) =~= Seq::<Seq<char>>::empty());
        }
        while i < allowed_tools.len()
            invariant
                i <= allowed_tools@.len(),
                all == texts(allowed_tools@),
                *self == *old(self),
                texts(kept@) == known_names(self@, all.take(i as int)),
            decreases allowed_tools@.len() - i,
        {
            let ghost before = kept@;
            let name: &str = allowed_tools[i].as_str();
            proof {
                assert(all.take(i + 1).drop_last() =~= all.take(i as int));
                assert(all.take(i + 1).last() == name@);
            }
            if self.tools.contains_key(name) || self.dynamic.contains_key(name) {
                kept.push(allowed_tools[i].clone());
                proof {
                    assert(texts(kept@) =~= texts(before).push(name@));
                }
            }
            i = i + 1;
        }
        proof {
            assert(all.take(i as int) =~= all);
            assert(texts(kept@).len() == kept@.len());
        }
        self.allowed = if kept.len() == 0 {
            None
        } else {
            Some(kept)
        };
    }

    fn permits(&self, name: &str) -> (r: bool)
        ensures
            r == permitted(self@, name@),
    {
        match &self.allowed {
            Some(a) => contains_text(a.as_slice(), name),
            None => true,
        }
    }

    fn permitted_of(&self, names: Vec<String>) -> (out: Vec<String>)
        requires
            in_order(texts(names@)),
            texts(names@).no_duplicates(),
        ensures
            in_order(texts(out@)),
            texts(out@).no_duplicates(),
            forall|k: Seq<char>| #[trigger]
                texts(out@).contains(k) <==> texts(names@).contains(k) && permitted(self@, k),
    {
        let mut out: Vec<String> = Vec::new();
        let ghost all = texts(names@);
        let ghost mut from: Seq<int> = Seq::empty();
        let mut i: usize = 0;
        while i < names.len()
            invariant
                i <= names@.len(),
                all == texts(names@),
                in_order(all),
                all.no_duplicates(),
                from.len() == out@.len(),
                forall|k: int|
                    0 <= k < from.len() ==> 0 <= #[trigger] from[k] < i && texts(out@)[k]
                        == all[from[k]] && permitted(self@, texts(out@)[k]),
                forall|a: int, b: int|
                    0 <= a < b < from.len() ==> #[trigger] from[a] < #[trigger] from[b],
                forall|j: int|
                    0 <= j < i && permitted(self@, #[trigger] all[j]) ==> texts(out@).contains(
                        all[j],
                    ),
            decreases names@.len() - i,
        {
            let ghost before = texts(out@);
            proof {
                assert(all[i as int] == names@[i as int]@);
            }
            if self.permits(names[i].as_str()) {
                out.push(names[i].clone());
                proof {
                    let after = texts(out@);
                    assert(after =~= before.push(all[i as int]));
                    from = from.push(i as int);
                    assert forall|j: int|
                        0 <= j < i + 1 && permitted(self@, #[trigger] all[j]) implies after.contains(
                        all[j],
                    ) by {
                        if j < i {
                            let k = choose|k: int| 0 <= k < before.len() && before[k] == all[j];
                            assert(after[k] == all[j]);
                        } else {
                            assert(after[before.len() as int] == all[j]);
                        }
                    }
                }
            }
            i = i + 1;
        }
        proof {
            let t = texts(out@);
            assert forall|a: int, b: int| 0 <= a < b < t.len() implies !crate::order::precedes(
                #[trigger] t[b],
                #[trigger] t[a],
            ) by {
                assert(from[a] < from[b]);
                assert(t[a] == all[from[a]]);
                assert(t[b] == all[from[b]]);
            }
            assert forall|a: int, b: int|
                0 <= a < t.len() && 0 <= b < t.len() && a != b implies t[a] != t[b] by {
                assert(t[a] == all[from[a]]);
                assert(t[b] == all[from[b]]);
                if a < b {
                    assert(from[a] < from[b]);
                } else {
                    assert(from[b] < from[a]);
                }
            }
            assert forall|k: Seq<char>| #[trigger]
                t.contains(k) <==> all.contains(k) && permitted(self@, k) by {
                if t.contains(k) {
                    let a = choose|a: int| 0 <= a < t.len() && t[a] == k;
                    assert(t[a] == all[from[a]]);
                }
                if all.contains(k) && permitted(self@, k) {
                    let j = choose|j: int| 0 <= j < all.len() && all[j] == k;
                    assert(permitted(self@, all[j]));
                }
            }
        }
        out
    }

    /// The names of the tools that may be called, each once: the fixed ones, in order, and
    /// those that come and go, in order.
    pub fn filtered_names(&self) -> (r: (Vec<String>, Vec<String>))
        ensures
            in_order(texts(r.0@)),
            in_order(texts(r.1@)),
            texts(r.0@).no_duplicates(),
            texts(r.1@).no_duplicates(),
            forall|k: Seq<char>| #[trigger]
                texts(r.0@).contains(k) <==> self@.tools.contains_key(k) && permitted(self@, k),
            forall|k: Seq<char>| #[trigger]
                texts(r.1@).contains(k) <==> self@.dynamic.contains_key(k) && permitted(self@, k),
    {
        let keys: Vec<String> = self.tools.keys();
        let sorted: Vec<String> = sort_texts(keys);
        proof {
            lemma_same_members(texts(keys@), texts(sorted@));
        }
        let fixed: Vec<String> = self.permitted_of(sorted);
        let more: Vec<String> = self.permitted_of(self.dynamic_names());
        (fixed, more)
    }

    /// Prepares a call: it is noted as running, or a report says why it is not run.
    pub fn prepare_req(
        &mut self,
        id: &str,
        name: &str,
        timeout_secs: Option<u64>,
        verdict: &SafetyVerdict,
    ) -> (r: Result<PreparedCall, ToolExecReport>)
        ensures
            match refusal_of(old(self)@, name@, *verdict) {
                Some(message) => final(self)@ == old(self)@ && (r matches Err(e) && e@ == not_run(
                    name@,
                    message,
                )),
                None => final(self)@ == (ManagerView {
                    inflight: old(self)@.inflight.insert(id@, false),
                    ..old(self)@
                }) && (r matches Ok(p) && p.id@ == id@ && p.name@ == name@ && p.placement
                    == tool_of(old(self)@, name@)->0.placement && p.timeout_secs == match timeout_secs {
                    Some(n) => n,
                    None => tool_of(old(self)@, name@)->0.default_timeout_secs,
                }),
            },
    {
        if !self.permits(name) {
            let mut message: String = "[ERROR] Tool '".to_owned();
            message.append(name);
            message.append("' is not in the allowed list for this subagent. Allowed tools: [");
            match &self.allowed {
                Some(a) => {
                    message.append(join_texts(a.as_slice(), ", ").as_str());
                },
                None => {},
            }
            message.append("]");
            return Err(report_not_run(name, message));
        }
        let info: ToolInfo = match self.find(name) {
            Some(t) => *t,
            None => {
                let mut message: String = "[ERROR] Unknown tool: ".to_owned();
                message.append(name);
                return Err(report_not_run(name, message));
            },
        };
        match verdict {
            SafetyVerdict::Block(reason) => {
                let mut message: String = "[ERROR] ".to_owned();
                message.append(reason.as_str());
                return Err(report_not_run(name, message));
            },
            SafetyVerdict::Allow => {},
        }
        self.inflight.insert(id.to_owned(), false);
        Ok(
            PreparedCall {
                id: id.to_owned(),
                name: name.to_owned(),
                placement: info.placement,
                timeout_secs: match timeout_secs {
                    Some(n) => n,
                    None => info.default_timeout_secs,
                },
            },
        )
    }

    /// Finishes a call: it no longer runs, it is counted, and the files that it read or
    /// wrote are noted when it succeeded.
    pub fn finalize_req(
        &mut self,
        prepared: PreparedCall,
        text: String,
        success: bool,
        elapsed_ms: u64,
        audit_args: &Json,
    ) -> (r: ToolExecReport)
        requires
            old(self)@.calls_total < u32::MAX,
            old(self)@.failures < u32::MAX,
        ensures
            final(self)@ == finished(old(self)@, prepared, success, *audit_args),
            r@ == (ReportView {
                content: text@,
                success,
                name: prepared.name@,
                elapsed_ms,
                output_size: byte_len(text@),
                meta_success: success,
                args_summary: args_summary(*audit_args),
                files_affected: files_of(*audit_args),
            }),
    {
        let _ = self.inflight.remove(prepared.id.as_str());
        self.calls_total = self.calls_total + 1;
        if !success {
            self.failures = self.failures + 1;
        }
        let args_summary: String = audit_args_summary(audit_args);
        let files_affected: Vec<String> = extract_files_affected(audit_args);
        if success {
            if text_eq(prepared.name.as_str(), "read") || text_eq(prepared.name.as_str(), "skills") {
                note_files(&mut self.files_read, files_affected.as_slice());
            } else if text_eq(prepared.name.as_str(), "edit") || text_eq(
                prepared.name.as_str(),
                "todo",
            ) {
                note_files(&mut self.files_written, files_affected.as_slice());
            }
        }
        let output_size: u128 = byte_length(chars_of(text.as_str()).as_slice());
        proof {
            assert(self@ =~= finished(old(self)@, prepared, success, *audit_args));
        }
        ToolExecReport {
            content: text,
            success,
            meta: ToolExecMeta {
                name: prepared.name,
                elapsed_ms,
                output_size,
                success,
                args_summary,
            },
            files_affected,
        }
    }

    /// What the calls have come to so far.
    pub fn stats(&self) -> (s: ToolStats)
        ensures
            s.calls_total == self@.calls_total,
            s.failures == self@.failures,
            texts(s.files_read@) == self@.files_read,
            texts(s.files_written@) == self@.files_written,
    {
        ToolStats {
            calls_total: self.calls_total,
            failures: self.failures,
            files_read: copy_texts(self.files_read.as_slice()),
            files_written: copy_texts(self.files_written.as_slice()),
        }
    }

    /// Cancels a call that runs, or all of them.
    pub fn cancel_tool(&mut self, id: Option<&str>)
        ensures
            match id {
                Some(x) => final(self)@ == (ManagerView {
                    inflight: if old(self)@.inflight.contains_key(x@) {
                        old(self)@.inflight.insert(x@, true)
                    } else {
                        old(self)@.inflight
                    },
                    ..old(self)@
                }),
                None => final(self)@ == (ManagerView {
                    inflight: final(self)@.inflight,
                    ..old(self)@
                }) && final(self)@.inflight.dom() == old(self)@.inflight.dom() && forall|
                    k: Seq<char>,
                |
                    #[trigger] final(self)@.inflight.contains_key(k) ==> final(self)@.inflight[k],
            },
    {
        match id {
            Some(x) => {
                if self.inflight.contains_key(x) {
                    self.inflight.insert(x.to_owned(), true);
                }
            },
            None => {
                let keys: Vec<String> = self.inflight.keys();
                let ghost t = texts(keys@);
                let mut i: usize = 0;
                while i < keys.len()
                    invariant
                        i <= keys@.len(),
                        t == texts(keys@),
                        forall|k: Seq<char>| #[trigger]
                            old(self)@.inflight.contains_key(k) <==> t.contains(k),
                        self@ == (ManagerView { inflight: self@.inflight, ..old(self)@ }),
                        self@.inflight.dom() == old(self)@.inflight.dom(),
                        forall|j: int| 0 <= j < i ==> self@.inflight[#[trigger] t[j]],
                    decreases keys@.len() - i,
                {
                    let ghost before = self@.inflight;
                    self.inflight.insert(keys[i].clone(), true);
                    proof {
                        assert(t[i as int] == keys@[i as int]@);
                        assert(t.contains(t[i as int]));
                        assert(before.contains_key(t[i as int]));
                        assert(self@.inflight == before.insert(t[i as int], true));
                        assert(self@.inflight.dom() =~= old(self)@.inflight.dom());
                    }
                    i = i + 1;
                }
                proof {
                    assert forall|k: Seq<char>| #[trigger]
                        self@.inflight.contains_key(k) implies self@.inflight[k] by {
                        assert(old(self)@.inflight.contains_key(k));
                        let j = choose|j: int| 0 <= j < t.len() && t[j] == k;
                        assert(self@.inflight[t[j]]);
                    }
                }
            },
        }
    }
}

proof fn lemma_same_members(a: Seq<Seq<char>>, b: Seq<Seq<char>>)
    requires
        a.to_multiset() == b.to_multiset(),
    ensures
        forall|k: Seq<char>| #[trigger] b.contains(k) <==> a.contains(k),
        a.no_duplicates() ==> b.no_duplicates(),
{
    if a.no_duplicates() {
        a.lemma_multiset_has_no_duplicates();
        b.lemma_multiset_has_no_duplicates_conv();
    }
    assert forall|k: Seq<char>| #[trigger] b.contains(k) <==> a.contains(k) by {
        vstd::seq_lib::to_multiset_contains(a, k);
        vstd::seq_lib::to_multiset_contains(b, k);
    }
}

/// Copies some texts.
pub fn copy_texts(list: &[String]) -> (out: Vec<String>)
    ensures
        texts(out@) == texts(list@),
{
    let mut out: Vec<String> = Vec::new();
    proof {
        assert(texts(out@) =~= Seq::<Seq<char>>::empty());
    }
    crate::exec::shell::push_all(&mut out, list);
    proof {
        assert(texts(out@) =~= texts(list@));
    }
    out
}

/// Files with more of them: each is noted once.
pub open spec fn noting(list: Seq<Seq<char>>, more: Seq<Seq<char>>) -> Seq<Seq<char>>
    decreases more.len(),
{
    if more.len() == 0 {
        list
    } else {
        let before = noting(list, more.drop_last());
        if before.contains(more.last()) {
            before
        } else {
            before.push(more.last())
        }
    }
}

fn note_files(list: &mut Vec<String>, more: &[String])
    ensures
        texts(final(list)@) == noting(texts(old(list)@), texts(more@)),
{
    let ghost m = texts(more@);
    let mut i: usize = 0;
    proof {
        assert(m.take(0) =~= Seq::<Seq<char>>::empty());
    }
    while i < more.len()
        invariant
            i <= more@.len(),
            m == texts(more@),
            texts(list@) == noting(texts(old(list)@), m.take(i as int)),
        decreases more@.len() - i,
    {
        let ghost before = list@;
        proof {
            assert(m.take(i + 1).drop_last() =~= m.take(i as int));
            assert(m.take(i + 1).last() == more@[i as int]@);
        }
        if !contains_text(list.as_slice(), more[i].as_str()) {
            list.push(more[i].clone());
            proof {
                assert(texts(list@) =~= texts(before).push(more@[i as int]@));
            }
        }
        i = i + 1;
    }
    proof {
        assert(m.take(i as int) =~= m);
    }
}

/// A list with a text member behind it, if there is one.
pub open spec fn with_text(list: Seq<Seq<char>>, args: Json, key: Seq<char>) -> Seq<Seq<char>> {
    match str_at(args, key) {
        Some(s) => list.push(s),
        None => list,
    }
}

/// The files that a call names.
pub open spec fn files_of(args: Json) -> Seq<Seq<char>> {
    let a = with_text(Seq::empty(), args, "path"@);
    let b = a + match arr_at(args, "paths"@) {
        Some(items) => strings_of(items),
        None => Seq::empty(),
    };
    with_text(
        with_text(with_text(with_text(b, args, "file_a"@), args, "file_b"@), args, "dest"@),
        args,
        "target"@,
    )
}

fn push_text(list: &mut Vec<String>, args: &Json, key: &str)
    ensures
        texts(final(list)@) == with_text(texts(old(list)@), *args, key@),
{
    let ghost before = list@;
    match args.get_str(key) {
        Some(s) => {
            list.push(s.to_owned());
            proof {
                assert(texts(list@) =~= texts(before).push(s@));
            }
        },
        None => {},
    }
}

/// The files that a call names.
pub fn extract_files_affected(args: &Json) -> (out: Vec<String>)
    ensures
        texts(out@) == files_of(*args),
{
    let mut out: Vec<String> = Vec::new();
    proof {
        assert(texts(out@) =~= Seq::<Seq<char>>::empty());
    }
    push_text(&mut out, args, "path");
    let ghost a = texts(out@);
    match args.get_array("paths") {
        Some(items) => {
            let more: Vec<String> = string_items(items.as_slice());
            crate::exec::shell::push_all(&mut out, more.as_slice());
        },
        None => {
            proof {
                assert(a + Seq::<Seq<char>>::empty() =~= a);
            }
        },
    }
    push_text(&mut out, args, "file_a");
    push_text(&mut out, args, "file_b");
    push_text(&mut out, args, "dest");
    push_text(&mut out, args, "target");
    out
}

/// The last name of a path, behind slashes of either kind.
pub open spec fn last_name(s: Seq<char>) -> Seq<char>
    decreases s.len(),
{
    if s.len() == 0 || s.last() == '/' || s.last() == '\\' {
        Seq::empty()
    } else {
        last_name(s.drop_last()).push(s.last())
    }
}

fn find_last_name(s: &[char]) -> (out: Vec<char>)
    ensures
        out@ == last_name(s@),
{
    let n: usize = s.len();
    let mut k: usize = n;
    proof {
        assert(s@.take(n as int) =~= s@);
        assert(last_name(s@) + s@.subrange(n as int, n as int) =~= last_name(s@));
    }
    while k > 0 && s[k - 1] != '/' && s[k - 1] != '\\'
        invariant
            k <= n,
            n == s@.len(),
            last_name(s@) == last_name(s@.take(k as int)) + s@.subrange(k as int, n as int),
        decreases k,
    {
        proof {
            let t = s@.take(k as int);
            assert(t.drop_last() =~= s@.take(k - 1));
            assert(t.last() == s@[k - 1]);
            assert(last_name(s@.take(k - 1)).push(s@[k - 1]) + s@.subrange(k as int, n as int)
                =~= last_name(s@.take(k - 1)) + s@.subrange(k - 1, n as int));
        }
        k = k - 1;
    }
    proof {
        if k > 0 {
            assert(s@.take(k as int).last() == s@[k - 1]);
        }
        assert(last_name(s@.take(k as int)) =~= Seq::<char>::empty());
        assert(last_name(s@) =~= s@.subrange(k as int, n as int));
    }
    slice_of(s, k, n)
}

/// An argument as it is shown: a long one by its last name.
pub open spec fn shown_arg(key: Seq<char>, value: Seq<char>) -> Seq<char> {
    key + "=\""@ + (if byte_len(value) > 50 {
        last_name(value)
    } else {
        value
    }) + "\""@
}

/// The arguments that are shown, in this order.
pub open spec fn summary_keys() -> Seq<Seq<char>> {
    seq![
        "path"@,
        "file_a"@,
        "file_b"@,
        "dest"@,
        "target"@,
        "command"@,
        "pattern"@,
        "query"@,
        "question"@,
    ]
}

/// The arguments under some keys, as they are shown.
pub open spec fn shown_args(args: Json, keys: Seq<Seq<char>>) -> Seq<Seq<char>>
    decreases keys.len(),
{
    if keys.len() == 0 {
        Seq::empty()
    } else {
        let before = shown_args(args, keys.drop_last());
        match str_at(args, keys.last()) {
            Some(v) => before.push(shown_arg(keys.last(), v)),
            None => before,
        }
    }
}

/// A summary of the arguments, cut to 80 bytes.
pub open spec fn args_summary(args: Json) -> Seq<char> {
    let s = join(shown_args(args, summary_keys()), ", "@);
    if byte_len(s) > 80 {
        s.take(fitting(s, 77) as int) + "…"@
    } else {
        s
    }
}

fn show_arg(parts: &mut Vec<Vec<char>>, args: &Json, key: &str, Ghost(keys): Ghost<Seq<Seq<char>>>)
    requires
        views(old(parts)@) == shown_args(*args, keys),
    ensures
        views(final(parts)@) == shown_args(*args, keys.push(key@)),
{
    let ghost before = parts@;
    proof {
        assert(keys.push(key@).drop_last() =~= keys);
    }
    match args.get_str(key) {
        Some(v) => {
            let s: Vec<char> = chars_of(v);
            let mut out: String = key.to_owned();
            out.append("=\"");
            if byte_length(s.as_slice()) > 50 {
                out.append(string_of(find_last_name(s.as_slice()).as_slice()).as_str());
            } else {
                out.append(v);
            }
            out.append("\"");
            parts.push(chars_of(out.as_str()));
            proof {
                assert(views(parts@) =~= views(before).push(shown_arg(key@, v@)));
            }
        },
        None => {},
    }
}

/// A summary of the arguments of a call.
pub fn audit_args_summary(args: &Json) -> (out: String)
    ensures
        out@ == args_summary(*args),
{
    let mut shown: Vec<Vec<char>> = Vec::new();
    proof {
        assert(views(shown@) =~= Seq::<Seq<char>>::empty());
    }
    let ghost k0: Seq<Seq<char>> = Seq::empty();
    show_arg(&mut shown, args, "path", Ghost(k0));
    let ghost k1 = k0.push("path"@);
    show_arg(&mut shown, args, "file_a", Ghost(k1));
    let ghost k2 = k1.push("file_a"@);
    show_arg(&mut shown, args, "file_b", Ghost(k2));
    let ghost k3 = k2.push("file_b"@);
    show_arg(&mut shown, args, "dest", Ghost(k3));
    let ghost k4 = k3.push("dest"@);
    show_arg(&mut shown, args, "target", Ghost(k4));
    let ghost k5 = k4.push("target"@);
    show_arg(&mut shown, args, "command", Ghost(k5));
    let ghost k6 = k5.push("command"@);
    show_arg(&mut shown, args, "pattern", Ghost(k6));
    let ghost k7 = k6.push("pattern"@);
    show_arg(&mut shown, args, "query", Ghost(k7));
    let ghost k8 = k7.push("query"@);
    show_arg(&mut shown, args, "question", Ghost(k8));
    proof {
        assert(k8.push("question"@) =~= summary_keys());
    }
    let s: Vec<char> = join_parts(shown.as_slice(), chars_of(", ").as_slice());
    if byte_length(s.as_slice()) > 80 {
        let k: usize = chars_fitting(s.as_slice(), 77);
        let head: Vec<char> = slice_of(s.as_slice(), 0, k);
        proof {
            assert(head@ =~= s@.take(k as int));
        }
        let mut out: String = string_of(head.as_slice());
        out.append("…");
        out
    } else {
        string_of(s.as_slice())
    }
}

/// The manager after a call.
pub open spec fn finished(
    m: ManagerView,
    prepared: PreparedCall,
    success: bool,
    args: Json,
) -> ManagerView {
    let reads = prepared.name@ == "read"@ || prepared.name@ == "skills"@;
    let writes = !reads && (prepared.name@ == "edit"@ || prepared.name@ == "todo"@);
    ManagerView {
        inflight: m.inflight.remove(prepared.id@),
        calls_total: (m.calls_total + 1) as u32,
        failures: if success {
            m.failures
        } else {
            (m.failures + 1) as u32
        },
        files_read: if success && reads {
            noting(m.files_read, files_of(args))
        } else {
            m.files_read
        },
        files_written: if success && writes {
            noting(m.files_written, files_of(args))
        } else {
            m.files_written
        },
        ..m
    }
}

/// Whether a call works in the workspace: its path leads into it, however many `..` it
/// holds. A call without a path does, and so does every call without a workspace.
pub open spec fn in_workspace(args: Json, workspace: Seq<char>) -> bool {
    match str_at(args, "path"@) {
        None => true,
        Some(p) => p.len() == 0 || p == "."@ || workspace.len() == 0 || workspace == "."@ || within(
            seen_from(p, workspace),
            path_parts(workspace),
        ),
    }
}

/// Whether a call works in the workspace.
pub fn is_path_in_workspace(args: &Json, workspace: &str) -> (r: bool)
    ensures
        r == in_workspace(*args, workspace@),
{
    match args.get_str("path") {
        None => true,
        Some(p) => {
            if p.is_empty() || text_eq(p, ".") {
                return true;
            }
            if workspace.is_empty() || text_eq(workspace, ".") {
                return true;
            }
            let abs: Vec<Part> = parts_from(p, workspace);
            let ws: Vec<Part> = parts_of(workspace);
            path_within_workspace(abs.as_slice(), ws.as_slice())
        },
    }
}

/// A call that is found to work in the workspace leads into it: neither `..` nor a
/// directory whose name begins like the workspace's gets it out.
pub proof fn no_call_escapes_the_workspace(args: Json, path: Seq<char>, workspace: Seq<char>)
    requires
        str_at(args, "path"@) == Some(path),
        path.len() > 0,
        path != "."@,
        workspace.len() > 0,
        workspace[0] == '/',
        plain(path_parts(workspace)),
        in_workspace(args, workspace),
    ensures
        path_parts(workspace).is_prefix_of(place(seen_from(path, workspace))),
{
    reveal_strlit(".");
    assert("."@[0] != '/');
    seen_from_the_root(path, workspace);
    no_path_escapes_the_directory(seen_from(path, workspace), path_parts(workspace));
}

/// A description never grows beyond its limit.
pub proof fn descriptions_are_kept_short(s: Seq<char>)
    ensures
        byte_len(short_description(s)) <= DYNAMIC_DESCRIPTION_LIMIT,
{
    if byte_len(s) > DYNAMIC_DESCRIPTION_LIMIT {
        lemma_fitting_bound(s, 2036);
        let head = s.take(fitting(s, 2036) as int);
        lemma_byte_len_concat(head, " [truncated]"@);
        reveal_strlit(" [truncated]");
        assert(" [truncated]"@.len() == 12);
        lemma_ascii(" [truncated]"@);
    }
}

proof fn lemma_ascii(s: Seq<char>)
    requires
        forall|i: int| 0 <= i < s.len() ==> (#[trigger] s[i]) as u32 <= 0x7f,
    ensures
        byte_len(s) == s.len(),
    decreases s.len(),
{
    if s.len() > 0 {
        let f = s.drop_last();
        assert forall|i: int| 0 <= i < f.len() implies (#[trigger] f[i]) as u32 <= 0x7f by {
            assert(f[i] == s[i]);
        }
        lemma_ascii(f);
        assert(s[s.len() - 1] as u32 <= 0x7f);
    }
}

/// A list of allowed tools that names none that exists allows all of them.
pub proof fn unknown_names_lock_nobody_out(m: ManagerView, names: Seq<Seq<char>>)
    requires
        forall|i: int| 0 <= i < names.len() ==> !known(m, #[trigger] names[i]),
    ensures
        known_names(m, names).len() == 0,
    decreases names.len(),
{
    if names.len() > 0 {
        let f = names.drop_last();
        assert forall|i: int| 0 <= i < f.len() implies !known(m, #[trigger] f[i]) by {
            assert(f[i] == names[i]);
        }
        unknown_names_lock_nobody_out(m, f);
        assert(!known(m, names[names.len() - 1]));
    }
}

/// A tool that is not on the list is never run, whatever the safety policy says.
pub proof fn only_allowed_tools_run(m: ManagerView, name: Seq<char>, verdict: SafetyVerdict)
    requires
        m.allowed is Some,
        !m.allowed->0.contains(name),
    ensures
        refusal_of(m, name, verdict) is Some,
{
}

/// A call never fails more often than it is made.
pub proof fn failures_are_among_the_calls(
    m: ManagerView,
    prepared: PreparedCall,
    success: bool,
    args: Json,
)
    requires
        m.failures <= m.calls_total,
        m.calls_total < u32::MAX,
    ensures
        finished(m, prepared, success, args).failures <= finished(
            m,
            prepared,
            success,
            args,
        ).calls_total,
        !finished(m, prepared, success, args).inflight.contains_key(prepared.id@),
{
}

} // verus!
