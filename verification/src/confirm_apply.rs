//! Confirming a dry run: its arguments are run again, or dropped.

use vstd::prelude::*;

use crate::edit::handler::{
    asks_for, edit_decision, filled, replays, step_after, EditCall, EditStep,
};
use crate::edit::hunk::flag;
use crate::edit::laws::{
    bound_to, dry_run_decides_as_the_real_call, replay_does_what_the_dry_run_showed,
};
use crate::edit::read::FileRead;
use crate::file_mutate::{asks_to_write, write_decision, WriteCall, WriteView};
use crate::json::{member, str_at, text_eq, Json};
use crate::outside::{debug_format, debug_text};
use crate::pending::{expired, take, PendingApply, PendingRegistry};
use crate::refusal::{plain_refusal, refuse, Refusal, RefusalView};

verus! {

/// A tool whose dry run can be confirmed.
#[derive(Debug, Clone, Copy, PartialEq, Eq, Structural)]
pub enum ReplayTool {
    Edit,
    Write,
    ApplyPatch,
}

/// What is done about a dry run.
#[derive(Debug, PartialEq, Eq)]
pub enum Confirmed {
    /// Its arguments are run again.
    Replay { tool: ReplayTool, args: Json },
    /// It is dropped.
    Discarded { text: String },
}

/// What is done about a dry run.
#[verifier::ext_equal]
pub enum ConfirmedView {
    Replay { tool: ReplayTool, args: Json },
    Discarded { text: Seq<char> },
}

impl View for Confirmed {
    type V = ConfirmedView;

    open spec fn view(&self) -> ConfirmedView {
        match self {
            Confirmed::Replay { tool, args } => ConfirmedView::Replay { tool: *tool, args: *args },
            Confirmed::Discarded { text } => ConfirmedView::Discarded { text: text@ },
        }
    }
}

/// The tool of a name.
pub open spec fn replay_tool(name: Seq<char>) -> Option<ReplayTool> {
    if name == "edit"@ {
        Some(ReplayTool::Edit)
    } else if name == "write"@ {
        Some(ReplayTool::Write)
    } else if name == "apply_patch"@ {
        Some(ReplayTool::ApplyPatch)
    } else {
        None
    }
}

/// The action that a call asks for.
pub open spec fn confirm_action(args: Json) -> Seq<char> {
    match str_at(args, "action"@) {
        Some(a) => a,
        None => "apply"@,
    }
}

/// The name that a call gives; empty when it gives none.
pub open spec fn asked_id(args: Json) -> Seq<char> {
    match str_at(args, "pending_id"@) {
        Some(id) => id,
        None => Seq::empty(),
    }
}

/// The refusal where nothing waits under a name.
pub open spec fn not_waiting(id: Seq<char>) -> RefusalView {
    plain_refusal(
        "PENDING_NOT_FOUND_OR_EXPIRED"@,
        "pending "@ + id + " not found or expired (30 min window; one-shot)"@,
        Some("Re-run the write tool with dry_run=true to get a fresh pending_id."@),
    )
}

/// What a call does about the dry run it names.
pub open spec fn confirmation(
    found: Option<PendingApply>,
    id: Seq<char>,
    action: Seq<char>,
) -> Result<ConfirmedView, RefusalView> {
    match found {
        None => Err(not_waiting(id)),
        Some(p) => if action == "apply"@ {
            match replay_tool(p.tool_name@) {
                Some(tool) => Ok(ConfirmedView::Replay { tool, args: p.args }),
                None => Err(
                    plain_refusal(
                        "UNKNOWN_PENDING_TOOL"@,
                        "pending "@ + id + " holds unknown tool '"@ + p.tool_name@ + "'"@,
                        None,
                    ),
                ),
            }
        } else if action == "discard"@ {
            Ok(
                ConfirmedView::Discarded {
                    text: "[OK] confirm_apply — pending "@ + id
                        + " discarded, no changes written\n"@,
                },
            )
        } else {
            Err(
                plain_refusal(
                    "INVALID_ACTION"@,
                    "invalid action "@ + debug_text(action)
                        + " — use \"apply\" or \"discard\""@,
                    None,
                ),
            )
        },
    }
}

/// The dry run that can still be confirmed under a name.
pub open spec fn waiting(
    table: Map<Seq<char>, PendingApply>,
    id: Seq<char>,
    now: u64,
) -> Option<PendingApply> {
    if table.contains_key(id) && !expired(table[id], now) {
        Some(table[id])
    } else {
        None
    }
}

/// The answer to a call, given the dry runs that wait.
pub open spec fn confirm_reply(table: Map<Seq<char>, PendingApply>, args: Json, now: u64) -> Result<
    ConfirmedView,
    RefusalView,
> {
    if asked_id(args).len() == 0 {
        Err(
            plain_refusal(
                "MISSING_PENDING_ID"@,
                "confirm_apply requires 'pending_id' (returned by a dry_run of edit / apply_patch / write)"@,
                None,
            ),
        )
    } else {
        confirmation(waiting(table, asked_id(args), now), asked_id(args), confirm_action(args))
    }
}

/// The dry runs that wait after a call.
pub open spec fn left_waiting(table: Map<Seq<char>, PendingApply>, args: Json) -> Map<
    Seq<char>,
    PendingApply,
> {
    if asked_id(args).len() == 0 {
        table
    } else {
        table.remove(asked_id(args))
    }
}

/// Confirms or drops a dry run. Whatever is asked, it is taken out of the registry.
pub fn exec_confirm_apply(reg: &mut PendingRegistry, args: &Json, now: u64) -> (r: Result<
    Confirmed,
    Refusal,
>)
    ensures
        final(reg).table@ == left_waiting(old(reg).table@, *args),
        match confirm_reply(old(reg).table@, *args, now) {
            Ok(v) => r matches Ok(c) && c@ == v,
            Err(e) => r matches Err(f) && f@ == e,
        },
{
    let id: &str = match args.get_str("pending_id") {
        Some(s) => s,
        None => "",
    };
    proof {
        reveal_strlit("");
        assert(""@.len() == 0);
    }
    if id.is_empty() {
        return Err(
            refuse(
                "MISSING_PENDING_ID",
                "confirm_apply requires 'pending_id' (returned by a dry_run of edit / apply_patch / write)".to_owned(),
                None,
            ),
        );
    }
    let action: &str = match args.get_str("action") {
        Some(a) => a,
        None => "apply",
    };
    let p: PendingApply = match take(reg, id, now) {
        Some(p) => p,
        None => {
            let mut message: String = "pending ".to_owned();
            message.append(id);
            message.append(" not found or expired (30 min window; one-shot)");
            return Err(
                refuse(
                    "PENDING_NOT_FOUND_OR_EXPIRED",
                    message,
                    Some("Re-run the write tool with dry_run=true to get a fresh pending_id."),
                ),
            );
        },
    };
    if text_eq(action, "apply") {
        let tool: ReplayTool = if text_eq(p.tool_name.as_str(), "edit") {
            ReplayTool::Edit
        } else if text_eq(p.tool_name.as_str(), "write") {
            ReplayTool::Write
        } else if text_eq(p.tool_name.as_str(), "apply_patch") {
            ReplayTool::ApplyPatch
        } else {
            let mut message: String = "pending ".to_owned();
            message.append(id);
            message.append(" holds unknown tool '");
            message.append(p.tool_name.as_str());
            message.append("'");
            return Err(refuse("UNKNOWN_PENDING_TOOL", message, None));
        };
        Ok(Confirmed::Replay { tool, args: p.args })
    } else if text_eq(action, "discard") {
        let mut text: String = "[OK] confirm_apply — pending ".to_owned();
        text.append(id);
        text.append(" discarded, no changes written\n");
        Ok(Confirmed::Discarded { text })
    } else {
        let mut message: String = "invalid action ".to_owned();
        message.append(debug_format(action).as_str());
        message.append(" — use \"apply\" or \"discard\"");
        Err(refuse("INVALID_ACTION", message, None))
    }
}

/// A dry run can be confirmed once: after that nothing waits under its name, and a second
/// call is refused and changes nothing.
pub proof fn confirmed_once(
    table: Map<Seq<char>, PendingApply>,
    args: Json,
    again: Json,
    later: u64,
)
    requires
        asked_id(args).len() > 0,
        asked_id(again) == asked_id(args),
    ensures
        confirm_reply(left_waiting(table, args), again, later) == Err::<
            ConfirmedView,
            RefusalView,
        >(not_waiting(asked_id(args))),
        left_waiting(left_waiting(table, args), again) == left_waiting(table, args),
        forall|k: Seq<char>, now: u64|
            k != asked_id(args) ==> #[trigger] waiting(left_waiting(table, args), k, now) == waiting(
                table,
                k,
                now,
            ),
{
    assert(left_waiting(left_waiting(table, args), again) =~= left_waiting(table, args));
}

/// Dropping a dry run never runs anything.
pub proof fn discarding_runs_nothing(found: Option<PendingApply>, id: Seq<char>)
    ensures
        !(confirmation(found, id, "discard"@) matches Ok(c) && c is Replay),
{
    reveal_strlit("apply");
    reveal_strlit("discard");
    assert("apply"@.len() != "discard"@.len());
}

/// What is run again is what was stored: the arguments are taken over as they are.
pub proof fn confirmed_arguments_are_the_stored_ones(
    found: Option<PendingApply>,
    id: Seq<char>,
    action: Seq<char>,
)
    ensures
        confirmation(found, id, action) matches Ok(c) ==> (c matches ConfirmedView::Replay {
            tool,
            args,
        } ==> found is Some && args == found->0.args && replay_tool(found->0.tool_name@) == Some(
            tool,
        )),
{
}

/// A tool's dry run waits under the name that a call gives, and the call applies it.
pub open spec fn applies_waiting(
    table: Map<Seq<char>, PendingApply>,
    call: Json,
    now: u64,
    tool: Seq<char>,
    stored: Json,
) -> bool {
    &&& asked_id(call).len() > 0
    &&& confirm_action(call) == "apply"@
    &&& waiting(table, asked_id(call), now) matches Some(p) && p.tool_name@ == tool && p.args
        == stored
}

/// Two calls ask for the same, but for the dry run.
pub open spec fn same_but_dry(a: Json, b: Json) -> bool {
    forall|key: Seq<char>| key != "dry_run"@ ==> #[trigger] member(a, key) == member(b, key)
}

/// Confirming the dry run of an edit leaves the file as the edit itself would have left it:
/// the arguments that were stored are run, they come to the decision of the call without
/// the dry run, and both write the file. A second call on the same name is refused, and
/// writes nothing.
pub proof fn confirmed_edit_is_the_edit(
    args: Json,
    sent: Json,
    stored: Json,
    base: FileRead,
    dry: EditCall,
    plain: EditCall,
    run: EditCall,
    table: Map<Seq<char>, PendingApply>,
    call: Json,
    again: Json,
    now: u64,
    later: u64,
)
    requires
        args is Obj,
        same_but_dry(sent, args),
        asks_for(args, dry),
        asks_for(sent, plain),
        asks_for(stored, run),
        !plain.dry_run,
        edit_decision(dry, base) is Commit,
        replays(args->Obj_0@, bound_to(base), stored),
        applies_waiting(table, call, now, "edit"@, stored),
        asked_id(again) == asked_id(call),
    ensures
        confirm_reply(table, call, now) == Ok::<ConfirmedView, RefusalView>(
            ConfirmedView::Replay { tool: ReplayTool::Edit, args: stored },
        ),
        edit_decision(run, base) == edit_decision(plain, base),
        step_after(edit_decision(run, base), run.dry_run) == EditStep::Write,
        step_after(edit_decision(plain, base), plain.dry_run) == EditStep::Write,
        confirm_reply(left_waiting(table, call), again, later) == Err::<
            ConfirmedView,
            RefusalView,
        >(not_waiting(asked_id(call))),
        left_waiting(left_waiting(table, call), again) == left_waiting(table, call),
{
    dry_run_decides_as_the_real_call(args, sent, dry, plain, base);
    replay_does_what_the_dry_run_showed(args, base, stored, dry, run);
    confirmed_once(table, call, again, later);
}

/// Confirming the dry run of a write leaves the file as the write itself would have left
/// it. A second call on the same name is refused, and writes nothing.
pub proof fn confirmed_write_is_the_write(
    args: Json,
    sent: Json,
    stored: Json,
    path: Seq<char>,
    file: Option<Seq<char>>,
    known: Option<Seq<char>>,
    known_later: Option<Seq<char>>,
    dry: WriteCall,
    plain: WriteCall,
    run: WriteCall,
    table: Map<Seq<char>, PendingApply>,
    call: Json,
    again: Json,
    now: u64,
    later: u64,
)
    requires
        args is Obj,
        same_but_dry(sent, args),
        asks_to_write(args, path, dry),
        asks_to_write(sent, path, plain),
        asks_to_write(stored, path, run),
        dry.dry_run,
        !plain.dry_run,
        write_decision(known, dry, file) matches WriteView::Preview { base_hash, .. }
            && base_hash.len() > 0 && replays(args->Obj_0@, Some(base_hash), stored),
        applies_waiting(table, call, now, "write"@, stored),
        asked_id(again) == asked_id(call),
    ensures
        confirm_reply(table, call, now) == Ok::<ConfirmedView, RefusalView>(
            ConfirmedView::Replay { tool: ReplayTool::Write, args: stored },
        ),
        write_decision(known_later, run, file) == write_decision(known, plain, file),
        write_decision(known, plain, file) is Write,
        confirm_reply(left_waiting(table, call), again, later) == Err::<
            ConfirmedView,
            RefusalView,
        >(not_waiting(asked_id(call))),
        left_waiting(left_waiting(table, call), again) == left_waiting(table, call),
{
    lemma_keys();
    lemma_tools();
    assert(member(stored, "content"@) == member(args, "content"@));
    assert(member(stored, "append"@) == member(args, "append"@));
    assert(member(sent, "content"@) == member(args, "content"@));
    assert(member(sent, "append"@) == member(args, "append"@));
    assert(member(sent, "expected_hash"@) == member(args, "expected_hash"@));
    confirmed_once(table, call, again, later);
}

/// Confirming the dry run of a patch runs the patch that the call without the dry run would
/// have run. A second call on the same name is refused, and writes nothing.
pub proof fn confirmed_patch_is_the_patch(
    args: Json,
    sent: Json,
    stored: Json,
    table: Map<Seq<char>, PendingApply>,
    call: Json,
    again: Json,
    now: u64,
    later: u64,
)
    requires
        args is Obj,
        same_but_dry(sent, args),
        replays(args->Obj_0@, None, stored),
        applies_waiting(table, call, now, "apply_patch"@, stored),
        asked_id(again) == asked_id(call),
    ensures
        confirm_reply(table, call, now) == Ok::<ConfirmedView, RefusalView>(
            ConfirmedView::Replay { tool: ReplayTool::ApplyPatch, args: stored },
        ),
        filled(stored, "patch"@) == filled(sent, "patch"@),
        !flag(stored, "dry_run"@),
        confirm_reply(left_waiting(table, call), again, later) == Err::<
            ConfirmedView,
            RefusalView,
        >(not_waiting(asked_id(call))),
        left_waiting(left_waiting(table, call), again) == left_waiting(table, call),
{
    lemma_keys();
    lemma_tools();
    assert(member(stored, "patch"@) == member(args, "patch"@));
    assert(member(sent, "patch"@) == member(args, "patch"@));
    confirmed_once(table, call, again, later);
}

proof fn lemma_keys()
    ensures
        "content"@ != "dry_run"@ && "content"@ != "expected_hash"@,
        "append"@ != "dry_run"@ && "append"@ != "expected_hash"@,
        "patch"@ != "dry_run"@ && "patch"@ != "expected_hash"@,
        "expected_hash"@ != "dry_run"@,
{
    reveal_strlit("content");
    reveal_strlit("append");
    reveal_strlit("patch");
    reveal_strlit("dry_run");
    reveal_strlit("expected_hash");
    assert("content"@[0] != "dry_run"@[0]);
    assert("append"@.len() == 6 && "patch"@.len() == 5 && "dry_run"@.len() == 7);
    assert("content"@.len() == 7 && "expected_hash"@.len() == 13);
}

proof fn lemma_tools()
    ensures
        replay_tool("edit"@) == Some(ReplayTool::Edit),
        replay_tool("write"@) == Some(ReplayTool::Write),
        replay_tool("apply_patch"@) == Some(ReplayTool::ApplyPatch),
{
    reveal_strlit("edit");
    reveal_strlit("write");
    reveal_strlit("apply_patch");
    assert("edit"@.len() == 4 && "write"@.len() == 5 && "apply_patch"@.len() == 11);
}

} // verus!
