//! The patch tool: what a patch call asks for and what it is told.

use vstd::prelude::*;

use crate::apply_patch_engine::engine::{
    delta_views, engine_error_text, ApplyOutcome, ApplyView, DeltaView, EngineError,
    EngineErrorView, FileDelta,
};
use crate::edit::handler::{filled, filled_text};
use crate::edit::hunk::flag;
use crate::file_shared::diff_counts;
use crate::format::{dec, decimal_big};
use crate::json::Json;
use crate::ledger::{after_write, record_write, Ledger, LedgerView};
use crate::numbered::{count_lines, line_count};
use crate::outside::{added_total, line_steps, removed_total};
use crate::refusal::{plain_refusal, refuse, Refusal, RefusalView};
use crate::text::chars_of;

verus! {

/// The refusal of a call without a patch.
pub open spec fn missing_patch() -> RefusalView {
    plain_refusal(
        "PARSE_ERROR"@,
        "apply_patch: missing 'patch'"@,
        Some(
            "Provide a Codex-format patch: '*** Begin Patch' ... '*** End Patch' (see the tool description for the format)."@,
        ),
    )
}

/// The patch of a call and whether it is only checked.
pub fn plan_patch(args: &Json) -> (r: Result<(String, bool), Refusal>)
    ensures
        match filled(*args, "patch"@) {
            Some(p) => r is Ok && r->Ok_0.0@ == p && r->Ok_0.1 == flag(*args, "dry_run"@),
            None => r is Err && r->Err_0@ == missing_patch(),
        },
{
    match filled_text(args, "patch") {
        Some(p) => {
            let dry_run: bool = match args.get_bool("dry_run") {
                Some(b) => b,
                None => false,
            };
            Ok((p.to_owned(), dry_run))
        },
        None => Err(
            refuse(
                "PARSE_ERROR",
                "apply_patch: missing 'patch'".to_owned(),
                Some(
                    "Provide a Codex-format patch: '*** Begin Patch' ... '*** End Patch' (see the tool description for the format).",
                ),
            ),
        ),
    }
}

/// The lines that a file of a patch gains and loses.
pub open spec fn delta_counts(d: DeltaView) -> (nat, nat) {
    match (d.old, d.new) {
        (None, Some(new)) => (line_count(new), 0),
        (Some(old), None) => (0, line_count(old)),
        (Some(old), Some(new)) => (
            added_total(line_steps(old, new)),
            removed_total(line_steps(old, new)),
        ),
        (None, None) => (0, 0),
    }
}

/// The lines that the first `n` files gain and lose together.
pub open spec fn counts_upto(deltas: Seq<DeltaView>, n: int) -> (nat, nat)
    decreases n,
{
    if n <= 0 {
        (0, 0)
    } else {
        let front = counts_upto(deltas, n - 1);
        let d = delta_counts(deltas[n - 1]);
        (front.0 + d.0, front.1 + d.1)
    }
}

/// Counts the lines that the files of a patch gain and lose.
pub fn patch_stats(deltas: &[FileDelta]) -> (r: (u128, u128))
    ensures
        (r.0 as nat, r.1 as nat) == counts_upto(delta_views(deltas@), deltas@.len() as int),
{
    let ghost v = delta_views(deltas@);
    let mut ins: u128 = 0;
    let mut del: u128 = 0;
    let mut i: usize = 0;
    while i < deltas.len()
        invariant
            i <= deltas@.len(),
            v == delta_views(deltas@),
            (ins as nat, del as nat) == counts_upto(v, i as int),
            ins <= 0xffff_ffff_ffff_ffff * i,
            del <= 0xffff_ffff_ffff_ffff * i,
        decreases deltas@.len() - i,
    {
        let d: &FileDelta = &deltas[i];
        proof {
            assert(v[i as int] == d@);
        }
        let (a, r): (u128, u128) = match (&d.old, &d.new) {
            (None, Some(new)) => (count_lines(new.as_str()) as u128, 0),
            (Some(before), None) => (0, count_lines(before.as_str()) as u128),
            (Some(before), Some(new)) => {
                let old_chars: Vec<char> = chars_of(before.as_str());
                let new_chars: Vec<char> = chars_of(new.as_str());
                let (a, r, _first): (u128, u128, u128) = diff_counts(before.as_str(), new.as_str());
                assert(r <= old_chars.len() && a <= new_chars.len());
                (a, r)
            },
            (None, None) => (0, 0),
        };
        ins = ins + a;
        del = del + r;
        i = i + 1;
    }
    (ins, del)
}

/// How many files a patch touches.
pub open spec fn file_count(o: ApplyView) -> nat {
    o.added.len() + o.modified.len() + o.deleted.len()
}

/// The report on a patch.
pub open spec fn patch_text(o: ApplyView, dry_run: bool) -> Seq<char> {
    let c = counts_upto(o.deltas, o.deltas.len() as int);
    if dry_run {
        "[DRY RUN] apply_patch — patch parses: "@ + dec(file_count(o)) + " file(s), +"@ + dec(c.0)
            + " -"@ + dec(c.1)
            + "; engine pre-checked every hunk against current file contents (a real apply may still differ)\n"@
    } else {
        "[OK] apply_patch — applied: "@ + dec(file_count(o)) + " file(s), +"@ + dec(c.0) + " -"@
            + dec(c.1) + "\n"@
    }
}

/// Reports on a patch.
pub fn render_patch(outcome: &ApplyOutcome, dry_run: bool) -> (out: String)
    ensures
        out@ == patch_text(outcome@, dry_run),
{
    let (ins, del): (u128, u128) = patch_stats(outcome.deltas.as_slice());
    let n: u128 = outcome.affected.added.len() as u128 + outcome.affected.modified.len() as u128
        + outcome.affected.deleted.len() as u128;
    let mut out: String = if dry_run {
        "[DRY RUN] apply_patch — patch parses: ".to_owned()
    } else {
        "[OK] apply_patch — applied: ".to_owned()
    };
    out.append(decimal_big(n).as_str());
    out.append(" file(s), +");
    out.append(decimal_big(ins).as_str());
    out.append(" -");
    out.append(decimal_big(del).as_str());
    if dry_run {
        out.append(
            "; engine pre-checked every hunk against current file contents (a real apply may still differ)\n",
        );
    } else {
        out.append("\n");
    }
    out
}

/// What a file of a patch is called in the journal.
pub open spec fn delta_op(d: DeltaView) -> Seq<char> {
    if d.old is None {
        "add"@
    } else if d.new is None {
        "delete"@
    } else {
        "update"@
    }
}

/// What a file of a patch is called in the journal.
pub fn op_of_delta(d: &FileDelta) -> (r: &'static str)
    ensures
        r@ == delta_op(d@),
{
    if d.old.is_none() {
        "add"
    } else if d.new.is_none() {
        "delete"
    } else {
        "update"
    }
}

/// The ledger after the first `n` files of a patch were written.
pub open spec fn ledger_after_patch(l: LedgerView, deltas: Seq<DeltaView>, n: int) -> LedgerView
    decreases n,
{
    if n <= 0 {
        l
    } else {
        let before = ledger_after_patch(l, deltas, n - 1);
        match deltas[n - 1].new {
            Some(new) => after_write(before, deltas[n - 1].path, new),
            None => before,
        }
    }
}

/// Records the files that a patch has written.
pub fn record_patch(ledger: &mut Ledger, deltas: &[FileDelta])
    ensures
        final(ledger)@ == ledger_after_patch(
            old(ledger)@,
            delta_views(deltas@),
            deltas@.len() as int,
        ),
{
    let ghost start = ledger@;
    let ghost v = delta_views(deltas@);
    let mut i: usize = 0;
    while i < deltas.len()
        invariant
            i <= deltas@.len(),
            v == delta_views(deltas@),
            ledger@ == ledger_after_patch(start, v, i as int),
        decreases deltas@.len() - i,
    {
        let d: &FileDelta = &deltas[i];
        proof {
            assert(v[i as int] == d@);
        }
        if let Some(new) = &d.new {
            record_write(ledger, d.path.as_str(), new.as_str());
        }
        i = i + 1;
    }
}

/// The code of an error and what to do about it.
pub open spec fn error_advice(e: EngineErrorView) -> (Seq<char>, Seq<char>) {
    match e {
        EngineErrorView::Parse(_) => (
            "PARSE_ERROR"@,
            "The patch does not follow the Codex apply-patch format: start with '*** Begin Patch', end with '*** End Patch'; hunk lines start with '+' (add), '-' (remove), ' ' (context); '@@' starts a chunk (optionally with a context line)."@,
        ),
        EngineErrorView::Compute(_) => (
            "NO_MATCH"@,
            "The engine could not find the expected lines in the target file (4-tier matching: exact → trailing-whitespace → trimmed → Unicode-normalised). Check the 'old' lines against the file; use '@@ <context>' to anchor the chunk, or '*** End of File' for end-of-file hunks. Hunks apply in order, and files already written stay; re-send a corrected FULL patch for a clean result (or dry_run=true first to pre-check every hunk)."@,
        ),
        EngineErrorView::EmptyPatch => (
            "EMPTY_PATCH"@,
            "The patch parsed to zero hunks; at least one '*** Add File: / *** Delete File: / *** Update File:' section is required."@,
        ),
        EngineErrorView::Io { .. } => (
            "IO_ERROR"@,
            "A filesystem operation failed (read/write/remove)."@,
        ),
        EngineErrorView::PathOutsideWorkspace { .. } => (
            "PATH_OUTSIDE_WORKSPACE"@,
            "Every patch path must resolve inside the workspace root; '..' escapes and absolute paths outside the workspace are rejected."@,
        ),
    }
}

/// The refusal of a patch that cannot be applied.
pub fn refuse_patch(e: &EngineError) -> (r: Refusal)
    ensures
        r@ == plain_refusal(
            error_advice(e@).0,
            engine_error_text(e@),
            Some(error_advice(e@).1),
        ),
{
    let (code, hint): (&str, &str) = match e {
        EngineError::Parse(_) => (
            "PARSE_ERROR",
            "The patch does not follow the Codex apply-patch format: start with '*** Begin Patch', end with '*** End Patch'; hunk lines start with '+' (add), '-' (remove), ' ' (context); '@@' starts a chunk (optionally with a context line).",
        ),
        EngineError::Compute(_) => (
            "NO_MATCH",
            "The engine could not find the expected lines in the target file (4-tier matching: exact → trailing-whitespace → trimmed → Unicode-normalised). Check the 'old' lines against the file; use '@@ <context>' to anchor the chunk, or '*** End of File' for end-of-file hunks. Hunks apply in order, and files already written stay; re-send a corrected FULL patch for a clean result (or dry_run=true first to pre-check every hunk).",
        ),
        EngineError::EmptyPatch => (
            "EMPTY_PATCH",
            "The patch parsed to zero hunks; at least one '*** Add File: / *** Delete File: / *** Update File:' section is required.",
        ),
        EngineError::Io { .. } => (
            "IO_ERROR",
            "A filesystem operation failed (read/write/remove).",
        ),
        EngineError::PathOutsideWorkspace { .. } => (
            "PATH_OUTSIDE_WORKSPACE",
            "Every patch path must resolve inside the workspace root; '..' escapes and absolute paths outside the workspace are rejected.",
        ),
    };
    refuse(code, e.to_text(), Some(hint))
}

} // verus!
