//! What holds of the files that a patch touches, and of what is said of them.

use vstd::prelude::*;

use crate::apply_patch::{
    counts_upto, delta_counts, delta_op, error_advice, file_count, ledger_after_patch,
};
use crate::apply_patch_engine::engine::{
    hunk_change, hunks_to_apply, with_delta, ApplyView, ChangeView, DeltaView, EngineErrorView,
    Target,
};
use crate::apply_patch_engine::file_update::{updated_contents, UpdateMode};
use crate::apply_patch_engine::parser::{parsed, HunkView};
use crate::apply_patch_engine::run::{no_outcome, outcome_of};
use crate::code_delta::{delta_of, lines_of_all};
use crate::file_shared::hash_of;
use crate::json::{arr_at, str_at, Json};
use crate::ledger::{last_entry, LedgerView};
use crate::numbered::line_count;
use crate::outside::{added_total, first_change, line_steps, removed_total, DiffStep};

verus! {

/// A hunk that adds a file writes its text, whatever is there but a directory in a dry run.
pub proof fn added_file_is_written(
    path: Seq<char>,
    contents: Seq<char>,
    resolved: Seq<char>,
    target: Target,
    mode: UpdateMode,
    dry_run: bool,
)
    ensures
        ({
            let r = hunk_change(
                HunkView::AddFile { path, contents },
                resolved,
                target,
                mode,
                dry_run,
            );
            &&& dry_run && target is Directory ==> r is Err
            &&& !(dry_run && target is Directory) ==> (r matches Ok(p) && p.0 == ChangeView::Write(
                contents,
            ) && p.1 == (DeltaView { path, old: None, new: Some(contents) }))
        }),
{
}

/// A hunk that deletes a file removes it, where it is there and no directory.
pub proof fn deleted_file_is_removed(
    path: Seq<char>,
    resolved: Seq<char>,
    target: Target,
    mode: UpdateMode,
    dry_run: bool,
)
    ensures
        ({
            let r = hunk_change(HunkView::DeleteFile { path }, resolved, target, mode, dry_run);
            &&& target is File <==> r is Ok
            &&& r matches Ok(p) ==> p.0 == ChangeView::Remove && p.1.path == path && p.1.new is None
            &&& target matches Target::File(Ok(s)) ==> (r matches Ok(p) && p.1.old == Some(s@))
        }),
{
}

/// A hunk that updates a file needs its text: it writes the updated text in its place, or to
/// the new path where it moves the file; where the text cannot be updated or had, it fails.
pub proof fn updated_file_is_written_or_moved(
    path: Seq<char>,
    move_path: Option<Seq<char>>,
    chunks: Seq<crate::apply_patch_engine::parser::ChunkView>,
    resolved: Seq<char>,
    target: Target,
    mode: UpdateMode,
    dry_run: bool,
)
    ensures
        ({
            let h = HunkView::UpdateFile { path, move_path, chunks };
            let r = hunk_change(h, resolved, target, mode, dry_run);
            &&& !(target matches Target::File(Ok(_))) ==> r is Err
            &&& target matches Target::File(Ok(s)) ==> {
                &&& updated_contents(s@, resolved, chunks, mode) is Err ==> (r matches Err(e)
                    && e is Compute)
                &&& updated_contents(s@, resolved, chunks, mode) matches Ok(new) ==> (r matches Ok(p)
                    && {
                    &&& move_path is None ==> p.0 == ChangeView::Write(new) && p.1.path == path
                    &&& move_path matches Some(to) ==> p.0 == ChangeView::Move(new) && p.1.path == to
                    &&& p.1.old == Some(s@)
                    &&& p.1.new == Some(new)
                })
            }
        }),
{
}

/// What a hunk does to its file is listed once, under what it does.
pub proof fn each_file_is_listed_by_what_happened(o: ApplyView, h: HunkView, d: DeltaView)
    ensures
        ({
            let next = with_delta(o, h, d);
            &&& next.deltas == o.deltas.push(d)
            &&& next.added == (if h is AddFile {
                o.added.push(d.path)
            } else {
                o.added
            })
            &&& next.deleted == (if h is DeleteFile {
                o.deleted.push(d.path)
            } else {
                o.deleted
            })
            &&& next.modified == (if h is UpdateFile {
                o.modified.push(d.path)
            } else {
                o.modified
            })
            &&& file_count(next) == file_count(o) + 1
        }),
{
}

/// A patch runs hunk by hunk, and the first that fails ends it.
pub proof fn patch_runs_hunk_by_hunk(
    hunks: Seq<HunkView>,
    found: Seq<(Seq<char>, Target)>,
    next: (Seq<char>, Target),
    mode: UpdateMode,
    dry_run: bool,
)
    requires
        found.len() < hunks.len(),
    ensures
        ({
            let before = outcome_of(hunks, found, mode, dry_run);
            let after = outcome_of(hunks, found.push(next), mode, dry_run);
            let h = hunks[found.len() as int];
            let change = hunk_change(h, next.0, next.1, mode, dry_run);
            &&& before is Err ==> after == before
            &&& before is Ok && change is Err ==> after == Err::<ApplyView, EngineErrorView>(
                change->Err_0,
            )
            &&& before is Ok && change is Ok ==> after == Ok::<ApplyView, EngineErrorView>(
                with_delta(before->Ok_0, h, change->Ok_0.1),
            )
        }),
        outcome_of(hunks, Seq::empty(), mode, dry_run) == Ok::<ApplyView, EngineErrorView>(
            no_outcome(),
        ),
{
    assert(found.push(next).drop_last() =~= found);
}

/// A patch is applied where it can be read and holds a hunk.
pub proof fn patch_needs_a_hunk(patch: Seq<char>)
    ensures
        parsed(patch) is Err ==> (hunks_to_apply(patch) matches Err(e) && e is Parse),
        parsed(patch) matches Ok(p) ==> {
            &&& p.1.len() == 0 ==> (hunks_to_apply(patch) matches Err(e) && e is EmptyPatch)
            &&& p.1.len() > 0 ==> hunks_to_apply(patch) == Ok::<Seq<HunkView>, EngineErrorView>(p.1)
        },
{
}

/// The lines that a file gains and loses: all of an added file, all of a deleted one, and
/// those of the diff of a changed one; the files add up.
pub proof fn changed_lines_are_counted(deltas: Seq<DeltaView>, n: int)
    requires
        0 <= n < deltas.len(),
    ensures
        ({
            let d = deltas[n];
            let c = delta_counts(d);
            &&& d.old is None && d.new is Some ==> c == (line_count(d.new->0), 0nat)
            &&& d.old is Some && d.new is None ==> c == (0nat, line_count(d.old->0))
            &&& d.old is Some && d.new is Some ==> c == (
                added_total(line_steps(d.old->0, d.new->0)),
                removed_total(line_steps(d.old->0, d.new->0)),
            )
            &&& counts_upto(deltas, n + 1).0 == counts_upto(deltas, n).0 + c.0
            &&& counts_upto(deltas, n + 1).1 == counts_upto(deltas, n).1 + c.1
            &&& counts_upto(deltas, 0) == (0nat, 0nat)
            &&& d.old is None ==> delta_op(d) == "add"@
            &&& d.old is Some && d.new is None ==> delta_op(d) == "delete"@
            &&& d.old is Some && d.new is Some ==> delta_op(d) == "update"@
        }),
{
}

/// The files that a patch has written are known to the ledger as it left them, in order.
pub proof fn patched_files_are_recorded(l: LedgerView, deltas: Seq<DeltaView>, n: int)
    requires
        0 <= n < deltas.len(),
    ensures
        ledger_after_patch(l, deltas, 0) == l,
        deltas[n].new is None ==> ledger_after_patch(l, deltas, n + 1) == ledger_after_patch(
            l,
            deltas,
            n,
        ),
        deltas[n].new matches Some(new) ==> {
            let next = ledger_after_patch(l, deltas, n + 1);
            &&& last_entry(next.files, deltas[n].path) matches Some(e) && e.hash == Some(
                hash_of(crate::file_shared::lf_view(new)),
            )
            &&& !next.shifts.contains_key(deltas[n].path)
        },
{
    if let Some(new) = deltas[n].new {
        crate::laws::ledger::written_file_is_known(
            ledger_after_patch(l, deltas, n),
            deltas[n].path,
            new,
        );
    }
}

/// Every error of a patch has its code.
pub proof fn patch_errors_have_codes(e: EngineErrorView)
    ensures
        e is Parse ==> error_advice(e).0 == "PARSE_ERROR"@,
        e is Compute ==> error_advice(e).0 == "NO_MATCH"@,
        e is EmptyPatch ==> error_advice(e).0 == "EMPTY_PATCH"@,
        e is Io ==> error_advice(e).0 == "IO_ERROR"@,
        e is PathOutsideWorkspace ==> error_advice(e).0 == "PATH_OUTSIDE_WORKSPACE"@,
{
}

/// The lines that a diff adds and removes are those of its steps that are no equal stretch,
/// and add up; the first change is the first such step.
pub proof fn diff_steps_add_up(a: Seq<DiffStep>, b: Seq<DiffStep>, s: DiffStep)
    ensures
        added_total(a + b) == added_total(a) + added_total(b),
        removed_total(a + b) == removed_total(a) + removed_total(b),
        s.equal ==> added_total(seq![s]) == 0 && removed_total(seq![s]) == 0,
        !s.equal ==> added_total(seq![s]) == s.new_len && removed_total(seq![s]) == s.old_len,
        !s.equal ==> first_change(seq![s] + b) == s.old_start + 1,
        s.equal ==> first_change(seq![s] + b) == first_change(b),
        first_change(Seq::empty()) == 1,
    decreases b.len(),
{
    reveal_with_fuel(added_total, 2);
    reveal_with_fuel(removed_total, 2);
    assert(seq![s].drop_last() =~= Seq::<DiffStep>::empty());
    assert((seq![s] + b).skip(1) =~= b);
    assert((seq![s] + b)[0] == s);
    if b.len() == 0 {
        assert(a + b =~= a);
    } else {
        diff_steps_add_up(a, b.drop_last(), s);
        assert((a + b).drop_last() =~= a + b.drop_last());
        assert((a + b).last() == b.last());
    }
}

/// How much code a call changed: the lines of a written content, the old and new lines of an
/// edit's hunks, a file for a deletion; nothing for any other call. Where the repository is
/// known it tells created and deleted files.
pub proof fn changed_code_is_counted(
    tool: Seq<char>,
    args: Json,
    now: u64,
    in_git: Option<(usize, usize)>,
)
    ensures
        ({
            let d = delta_of(tool, args, now, in_git);
            let file = str_at(args, "path"@);
            let write = tool == "file"@ && str_at(args, "action"@) == Some("write"@);
            &&& d is Some <==> write || tool == "delete"@ || tool == "edit"@
            &&& d matches Some(v) ==> {
                &&& v.timestamp == now
                &&& v.file == file
                &&& write ==> v.lines_removed == 0 && (str_at(args, "content"@) matches Some(c)
                    ==> v.lines_added == line_count(c))
                &&& tool == "delete"@ ==> v.lines_added == 0 && v.lines_removed == 0
                &&& tool == "edit"@ ==> (arr_at(args, "hunks"@) matches Some(items)
                    ==> v.lines_added == lines_of_all(items, "new"@) && v.lines_removed
                    == lines_of_all(items, "old"@))
                &&& file is None || in_git is None ==> v.files_created == (if tool == "delete"@ {
                    0usize
                } else {
                    1
                }) && v.files_deleted == (if tool == "delete"@ {
                    1usize
                } else {
                    0
                })
                &&& file is Some ==> (in_git matches Some(g) ==> v.files_created == g.0
                    && v.files_deleted == g.1)
            }
        }),
{
    reveal_strlit("file");
    reveal_strlit("delete");
    reveal_strlit("edit");
    reveal_strlit("write");
    assert("file"@[0] == 'f' && "edit"@[0] == 'e');
    assert("write"@.len() == 5 && "delete"@.len() == 6 && "file"@.len() == 4 && "edit"@.len() == 4);
}

/// The lines of several texts add up.
pub proof fn lines_of_texts_add_up(items: Seq<Json>, v: Json, key: Seq<char>)
    ensures
        lines_of_all(Seq::empty(), key) == 0,
        str_at(v, key) is None ==> lines_of_all(items.push(v), key) == lines_of_all(items, key),
        str_at(v, key) matches Some(s) ==> lines_of_all(items.push(v), key) == lines_of_all(
            items,
            key,
        ) + line_count(s),
{
    assert(items.push(v).drop_last() =~= items);
}

} // verus!
