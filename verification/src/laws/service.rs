//! What holds of the tools, of dry runs that wait, and of who may run a call.

use vstd::prelude::*;

use crate::authorization::{denial, gate, Gate, PermissionDecision};
use crate::confirm_apply::{confirm_reply, ConfirmedView, ReplayTool};
use crate::format::{byte_len, fitting};
use crate::json::{arr_at, str_at, strings_of, Json};
use crate::laws::text::as_much_as_fits;
use crate::lines::join;
use crate::manager::{
    args_summary, dynamic_name, files_of, finished, in_workspace, known, known_names, last_name,
    noting, refusal_of, short_description, shown_args, tool_of, with_text, ManagerView,
    PreparedCall, SafetyVerdict, ToolCategory,
};
use crate::order::{path_key, precedes};
use crate::pending::{hex, PendingApply};
use crate::refusal::RefusalView;

verus! {

/// The value of a digit of hexadecimal.
pub open spec fn digit_value(c: char) -> int {
    if '0' <= c <= '9' {
        c as u32 - 48
    } else {
        c as u32 - 87
    }
}

/// The number that a list of hexadecimal digits stands for.
pub open spec fn hex_numeral(s: Seq<char>) -> int
    decreases s.len(),
{
    if s.len() == 0 {
        0
    } else {
        16 * hex_numeral(s.drop_last()) + digit_value(s.last())
    }
}

/// A number in hexadecimal reads back as itself, and has no zero in front.
pub proof fn hexadecimal_reads_back(n: nat)
    ensures
        hex_numeral(hex(n)) == n,
        hex(n).len() > 0,
        n > 0 ==> hex(n)[0] != '0',
    decreases n,
{
    if n < 16 {
        assert(hex(n).drop_last() =~= Seq::<char>::empty());
        assert(hex_numeral(hex(n).drop_last()) == 0);
    } else {
        hexadecimal_reads_back(n / 16);
        assert(hex(n).drop_last() =~= hex(n / 16));
        assert(hex(n)[0] == hex(n / 16)[0]);
    }
}

/// A dry run that waits can be confirmed for half an hour. Then it runs again with the
/// arguments that were stored, is dropped where that is asked for, and is not found later or
/// under another name; any other action is refused.
pub proof fn dry_run_waits_half_an_hour(
    table: Map<Seq<char>, PendingApply>,
    args: Json,
    id: Seq<char>,
    now: u64,
)
    requires
        str_at(args, "pending_id"@) == Some(id),
        id.len() > 0,
    ensures
        ({
            let reply = confirm_reply(table, args, now);
            let p = table[id];
            let there = table.contains_key(id) && now - p.created_at <= 30 * 60 * 1000;
            let action = str_at(args, "action"@);
            &&& !there ==> (reply matches Err(e) && e.code == "PENDING_NOT_FOUND_OR_EXPIRED"@)
            &&& there && (action is None || action == Some("apply"@)) ==> {
                &&& p.tool_name@ == "edit"@ ==> reply == Ok::<ConfirmedView, RefusalView>(
                    ConfirmedView::Replay { tool: ReplayTool::Edit, args: p.args },
                )
                &&& p.tool_name@ == "write"@ ==> reply == Ok::<ConfirmedView, RefusalView>(
                    ConfirmedView::Replay { tool: ReplayTool::Write, args: p.args },
                )
                &&& p.tool_name@ == "apply_patch"@ ==> reply == Ok::<ConfirmedView, RefusalView>(
                    ConfirmedView::Replay { tool: ReplayTool::ApplyPatch, args: p.args },
                )
                &&& p.tool_name@ != "edit"@ && p.tool_name@ != "write"@ && p.tool_name@
                    != "apply_patch"@ ==> (reply matches Err(e) && e.code == "UNKNOWN_PENDING_TOOL"@)
            }
            &&& there && action == Some("discard"@) ==> (reply matches Ok(c) && c is Discarded)
            &&& there && action is Some && action != Some("apply"@) && action != Some("discard"@)
                ==> (reply matches Err(e) && e.code == "INVALID_ACTION"@)
        }),
{
    reveal_strlit("edit");
    reveal_strlit("write");
    reveal_strlit("apply_patch");
    reveal_strlit("apply");
    reveal_strlit("discard");
    assert("edit"@.len() == 4 && "write"@.len() == 5 && "apply_patch"@.len() == 11);
    assert("apply"@.len() == 5 && "discard"@.len() == 7);
}

/// A call that names no dry run is refused.
pub proof fn confirming_needs_a_name(table: Map<Seq<char>, PendingApply>, args: Json, now: u64)
    requires
        str_at(args, "pending_id"@) matches Some(id) ==> id.len() == 0,
    ensures
        confirm_reply(table, args, now) matches Err(e) && e.code == "MISSING_PENDING_ID"@,
{
}

/// A call runs exactly when its tool may be called and is known and the policy does not block
/// it.
pub proof fn permitted_calls_of_known_tools_run(
    m: ManagerView,
    name: Seq<char>,
    verdict: SafetyVerdict,
)
    ensures
        refusal_of(m, name, verdict) is None <==> (m.allowed is None || m.allowed->0.contains(name))
            && (m.tools.contains_key(name) || m.dynamic.contains_key(name)) && verdict
            == SafetyVerdict::Allow,
        refusal_of(m, name, verdict) is None ==> tool_of(m, name) is Some,
        m.tools.contains_key(name) ==> tool_of(m, name) == Some(m.tools[name]),
        !m.tools.contains_key(name) && m.dynamic.contains_key(name) ==> tool_of(m, name) == Some(
            m.dynamic[name],
        ),
        !m.tools.contains_key(name) && !m.dynamic.contains_key(name) ==> tool_of(m, name) is None,
        (m.allowed is None || m.allowed->0.contains(name)) && known(m, name) ==> (
        verdict matches SafetyVerdict::Block(why) ==> refusal_of(m, name, verdict) == Some(
            "[ERROR] "@ + why@,
        )),
{
}

/// Of the names of tools that may be called those count that are known, in order.
pub proof fn known_names_are_kept(m: ManagerView, names: Seq<Seq<char>>)
    ensures
        known_names(m, names) == names.filter(
            |n: Seq<char>| m.tools.contains_key(n) || m.dynamic.contains_key(n),
        ),
    decreases names.len(),
{
    reveal(Seq::filter);
    if names.len() > 0 {
        known_names_are_kept(m, names.drop_last());
    }
    assert(known_names(m, names) =~= names.filter(
        |n: Seq<char>| m.tools.contains_key(n) || m.dynamic.contains_key(n),
    ));
}

/// A description of up to 2048 bytes stays as it is; a longer one is cut between two
/// characters, as late as its limit allows, and marked.
pub proof fn long_descriptions_are_cut(s: Seq<char>)
    ensures
        byte_len(s) <= 2048 ==> short_description(s) == s,
        byte_len(s) > 2048 ==> exists|k: int|
            0 <= k < s.len() && short_description(s) == #[trigger] s.take(k) + " [truncated]"@
                && byte_len(s.take(k)) <= 2036 && byte_len(s.take(k + 1)) > 2036,
{
    let k = fitting(s, 2036) as int;
    as_much_as_fits(s, 2036);
    if byte_len(s) > 2048 {
        if k == s.len() {
            assert(s.take(k) =~= s);
        }
        assert(short_description(s) == s.take(k) + " [truncated]"@);
    }
}

/// Files are noted once each: those that were noted stay in front, and each further one is
/// there afterwards.
pub proof fn files_are_noted_once(list: Seq<Seq<char>>, more: Seq<Seq<char>>)
    ensures
        list.is_prefix_of(noting(list, more)),
        forall|x: Seq<char>| #[trigger]
            noting(list, more).contains(x) <==> list.contains(x) || more.contains(x),
        list.no_duplicates() ==> noting(list, more).no_duplicates(),
    decreases more.len(),
{
    let out = noting(list, more);
    if more.len() == 0 {
        assert(list.take(list.len() as int) =~= list);
    } else {
        let front = more.drop_last();
        let last = more.last();
        files_are_noted_once(list, front);
        let before = noting(list, front);
        assert(out.take(list.len() as int) =~= before.take(list.len() as int));
        assert forall|x: Seq<char>| #[trigger] out.contains(x) <==> list.contains(x)
            || more.contains(x) by {
            if more.contains(x) && x != last {
                let k = choose|k: int| 0 <= k < more.len() && more[k] == x;
                assert(front[k] == x);
                assert(front.contains(x));
            }
            if front.contains(x) {
                let k = choose|k: int| 0 <= k < front.len() && front[k] == x;
                assert(more[k] == x);
            }
            if before.contains(x) {
                let k = choose|k: int| 0 <= k < before.len() && before[k] == x;
                assert(out[k] == x);
            }
            if x == last {
                assert(more[more.len() - 1] == x);
                if !before.contains(x) {
                    assert(out[out.len() - 1] == x);
                }
            }
            if out.contains(x) && x != last {
                let k = choose|k: int| 0 <= k < out.len() && out[k] == x;
                assert(k < before.len());
                assert(before[k] == x);
            }
        }
    }
}

/// The files that a call names are those under `path`, `paths`, `file_a`, `file_b`, `dest` and
/// `target`.
pub proof fn files_of_a_call_are_those_it_names(args: Json, p: Seq<char>)
    ensures
        files_of(args).contains(p) <==> (str_at(args, "path"@) == Some(p) || (arr_at(
            args,
            "paths"@,
        ) is Some && strings_of(arr_at(args, "paths"@)->0).contains(p)) || str_at(args, "file_a"@)
            == Some(p) || str_at(args, "file_b"@) == Some(p) || str_at(args, "dest"@) == Some(p)
            || str_at(args, "target"@) == Some(p)),
{
    let none = Seq::<Seq<char>>::empty();
    let a = with_text(none, args, "path"@);
    let many = match arr_at(args, "paths"@) {
        Some(items) => strings_of(items),
        None => Seq::empty(),
    };
    let b = a + many;
    let c = with_text(b, args, "file_a"@);
    let d = with_text(c, args, "file_b"@);
    let e = with_text(d, args, "dest"@);
    lemma_with_text(none, args, "path"@, p);
    lemma_with_text(b, args, "file_a"@, p);
    lemma_with_text(c, args, "file_b"@, p);
    lemma_with_text(d, args, "dest"@, p);
    lemma_with_text(e, args, "target"@, p);
    if a.contains(p) {
        let k = choose|k: int| 0 <= k < a.len() && a[k] == p;
        assert(b[k] == p);
    }
    if many.contains(p) {
        let k = choose|k: int| 0 <= k < many.len() && many[k] == p;
        assert(b[a.len() + k] == p);
    }
    if b.contains(p) {
        let k = choose|k: int| 0 <= k < b.len() && b[k] == p;
        if k < a.len() {
            assert(a[k] == p);
        } else {
            assert(many[k - a.len()] == p);
        }
    }
}

proof fn lemma_with_text(list: Seq<Seq<char>>, args: Json, key: Seq<char>, p: Seq<char>)
    ensures
        with_text(list, args, key).contains(p) <==> list.contains(p) || str_at(args, key) == Some(p),
{
    let out = with_text(list, args, key);
    if let Some(s) = str_at(args, key) {
        if list.contains(p) {
            let k = choose|k: int| 0 <= k < list.len() && list[k] == p;
            assert(out[k] == p);
        }
        if s == p {
            assert(out[out.len() - 1] == p);
        }
        if out.contains(p) && s != p {
            let k = choose|k: int| 0 <= k < out.len() && out[k] == p;
            assert(list[k] == p);
        }
    }
}

/// A call that is over no longer runs and is counted, as a failure only where it failed; what
/// it read or wrote is noted only where it succeeded.
pub proof fn finished_call_is_counted(
    m: ManagerView,
    prepared: PreparedCall,
    success: bool,
    args: Json,
)
    requires
        m.calls_total < u32::MAX,
        m.failures < u32::MAX,
    ensures
        ({
            let next = finished(m, prepared, success, args);
            let name = prepared.name@;
            &&& next.calls_total == m.calls_total + 1
            &&& success ==> next.failures == m.failures
            &&& !success ==> next.failures == m.failures + 1
            &&& next.inflight == m.inflight.remove(prepared.id@)
            &&& next.tools == m.tools && next.dynamic == m.dynamic && next.allowed == m.allowed
            &&& !success ==> next.files_read == m.files_read && next.files_written
                == m.files_written
            &&& success && (name == "read"@ || name == "skills"@) ==> next.files_read == noting(
                m.files_read,
                files_of(args),
            ) && next.files_written == m.files_written
            &&& success && (name == "edit"@ || name == "todo"@) ==> next.files_written == noting(
                m.files_written,
                files_of(args),
            ) && next.files_read == m.files_read
            &&& name != "read"@ && name != "skills"@ && name != "edit"@ && name != "todo"@
                ==> next.files_read == m.files_read && next.files_written == m.files_written
        }),
{
    reveal_strlit("read");
    reveal_strlit("skills");
    reveal_strlit("edit");
    reveal_strlit("todo");
    assert("read"@[0] == 'r' && "edit"@[0] == 'e' && "todo"@[0] == 't' && "skills"@.len() == 6);
}

/// A call works in the workspace where it names no path, or there is no workspace; else where
/// its path leads into it.
pub proof fn calls_without_a_path_stay_inside(args: Json, workspace: Seq<char>)
    ensures
        str_at(args, "path"@) is None ==> in_workspace(args, workspace),
        workspace.len() == 0 || workspace == "."@ ==> in_workspace(args, workspace),
        str_at(args, "path"@) matches Some(p) ==> (p.len() > 0 && p != "."@ && workspace.len() > 0
            && workspace != "."@ ==> (in_workspace(args, workspace) <==> crate::bounds::within(
            crate::bounds::seen_from(p, workspace),
            crate::bounds::path_parts(workspace),
        ))),
{
}

/// The last name of a path stands behind its last slash of either kind.
pub proof fn last_name_stands_behind_slashes(dir: Seq<char>, slash: char, name: Seq<char>)
    requires
        slash == '/' || slash == '\\',
        !name.contains('/'),
        !name.contains('\\'),
    ensures
        last_name(name) == name,
        last_name(dir.push(slash) + name) == name,
    decreases name.len(),
{
    if name.len() == 0 {
        assert(dir.push(slash) + name =~= dir.push(slash));
    } else {
        let front = name.drop_last();
        assert(!front.contains('/') && !front.contains('\\')) by {
            assert forall|i: int| 0 <= i < front.len() implies front[i] != '/' && front[i]
                != '\\' by {
                assert(front[i] == name[i]);
                assert(name.contains(name[i]));
            }
        }
        assert(name.contains(name[name.len() - 1]));
        last_name_stands_behind_slashes(dir, slash, front);
        assert((dir.push(slash) + name).drop_last() =~= dir.push(slash) + front);
        assert(front.push(name.last()) =~= name);
    }
}

/// A summary of arguments is no longer than 80 bytes; one that fits is shown whole.
pub proof fn summaries_are_short(args: Json)
    ensures
        ({
            let s = join(shown_args(args, crate::manager::summary_keys()), ", "@);
            &&& byte_len(s) <= 80 ==> args_summary(args) == s
            &&& byte_len(s) > 80 ==> exists|k: int|
                0 <= k < s.len() && args_summary(args) == #[trigger] s.take(k) + "…"@ && byte_len(
                    s.take(k),
                ) <= 77 && byte_len(s.take(k + 1)) > 77
        }),
{
    let s = join(shown_args(args, crate::manager::summary_keys()), ", "@);
    let k = fitting(s, 77) as int;
    as_much_as_fits(s, 77);
    if byte_len(s) > 80 {
        if k == s.len() {
            assert(s.take(k) =~= s);
        }
        assert(args_summary(args) == s.take(k) + "…"@);
    }
}

/// Each argument under a key that is shown is shown, behind the ones before.
pub proof fn arguments_are_shown_in_order(args: Json, keys: Seq<Seq<char>>, key: Seq<char>)
    ensures
        shown_args(args, Seq::empty()).len() == 0,
        str_at(args, key) is None ==> shown_args(args, keys.push(key)) == shown_args(args, keys),
        str_at(args, key) matches Some(v) ==> {
            &&& byte_len(v) <= 50 ==> shown_args(args, keys.push(key)) == shown_args(args, keys).push(
                key + "=\""@ + v + "\""@,
            )
            &&& byte_len(v) > 50 ==> shown_args(args, keys.push(key)) == shown_args(args, keys).push(
                key + "=\""@ + last_name(v) + "\""@,
            )
        },
{
    assert(keys.push(key).drop_last() =~= keys);
}

/// The full name of a server's tool holds both names.
pub proof fn dynamic_names_hold_both(server: Seq<char>, tool: Seq<char>)
    ensures
        dynamic_name(server, tool) == "mcp__"@ + server + "__"@ + tool,
{
}

/// Outside the sandbox a call that needs no approval passes; in it a file operation outside
/// the workspace does not, and neither does one that the policy takes for more than that.
pub proof fn approval_decides_outside_the_sandbox(
    kind: ToolCategory,
    decision: PermissionDecision,
    inside: bool,
)
    ensures
        decision is AutoApprove ==> gate(kind, decision, false, inside) == Gate::Open,
        decision is AskUser ==> gate(kind, decision, false, inside) == Gate::Ask,
        gate(kind, decision, true, false) == Gate::Closed,
        kind == ToolCategory::Exec || kind == ToolCategory::Net ==> gate(
            kind,
            decision,
            true,
            inside,
        ) == Gate::Closed,
        (decision matches PermissionDecision::AskUser { category, .. } && (category
            == ToolCategory::Exec || category == ToolCategory::Net)) ==> gate(
            kind,
            decision,
            true,
            inside,
        ) == Gate::Closed,
        (kind == ToolCategory::Read || kind == ToolCategory::Write) && decision is AutoApprove
            ==> gate(kind, decision, true, true) == Gate::Open,
        decision matches PermissionDecision::AskUser { reason, .. } ==> denial(kind, decision)
            == reason@,
{
}

/// Texts are ordered character by character: the first character in which they differ
/// decides, and a text comes before every longer one that begins with it.
pub proof fn first_difference_decides(a: Seq<char>, b: Seq<char>, k: int)
    requires
        0 <= k <= a.len(),
        k <= b.len(),
        a.take(k) == b.take(k),
    ensures
        k < a.len() && k < b.len() && a[k] < b[k] ==> precedes(a, b) && !precedes(b, a),
        k == a.len() && k < b.len() ==> precedes(a, b) && !precedes(b, a),
        k == a.len() && k == b.len() ==> !precedes(a, b) && !precedes(b, a),
    decreases k,
{
    if k > 0 {
        assert(a.take(k)[0] == a[0] && b.take(k)[0] == b[0]);
        let x = a.skip(1);
        let y = b.skip(1);
        assert(x.take(k - 1) =~= a.take(k).skip(1));
        assert(y.take(k - 1) =~= b.take(k).skip(1));
        first_difference_decides(x, y, k - 1);
    }
}

/// For comparing paths a slash counts as less than any character, and nothing else changes.
pub proof fn slashes_come_first(s: Seq<char>, i: int)
    requires
        0 <= i < s.len(),
    ensures
        path_key(s).len() == s.len(),
        s[i] == '/' ==> path_key(s)[i] == '\u{0}',
        s[i] != '/' ==> path_key(s)[i] == s[i],
{
}

} // verus!
