//! What holds of every ledger of files, and of every cache of what was shown.

use vstd::prelude::*;

use crate::file_cache::{
    entry_for, first8, hex_digits, looked_up, not_for, stored, unchanged, CacheView, CachedView,
    MAX_CACHE,
};
use crate::file_shared::{hash_of, lf_view};
use crate::ledger::{
    adopted, after_edit, after_write, apart_from, carried, corrected, last_entry, moved_by, noted,
    real_moves, seen_hash, summary_line, summary_lines, summary_text, touched, EntryView,
    LedgerView, LineShift,
};
use crate::numbered::line_count;
use crate::outside::hex_digit;

verus! {

/// Recording a change takes out the earlier entry for its file, keeps all others in their
/// order, and puts the new one at the end.
pub proof fn recorded_file_comes_last(files: Seq<EntryView>, e: EntryView)
    ensures
        touched(files, e).len() > 0,
        touched(files, e).last() == e,
        touched(files, e).drop_last() == files.filter(|f: EntryView| f.path != e.path),
{
    lemma_apart(files, e.path);
    assert(touched(files, e).drop_last() =~= apart_from(files, e.path));
}

proof fn lemma_apart(files: Seq<EntryView>, path: Seq<char>)
    ensures
        apart_from(files, path) == files.filter(|f: EntryView| f.path != path),
    decreases files.len(),
{
    reveal(Seq::filter);
    if files.len() > 0 {
        lemma_apart(files.drop_last(), path);
    }
    assert(apart_from(files, path) =~= files.filter(|f: EntryView| f.path != path));
}

/// A change is queued behind the earlier ones, and neither the moves of lines nor what was
/// shown are touched by that.
pub proof fn change_is_queued(l: LedgerView, e: EntryView)
    ensures
        noted(l, e).queue == l.queue.push(e),
        noted(l, e).shifts == l.shifts,
        noted(l, e).cache == l.cache,
        noted(l, e).files.len() > 0 && noted(l, e).files.last() == e,
{
}

/// What is known of a file is its last entry.
pub proof fn last_entry_counts(files: Seq<EntryView>, path: Seq<char>, i: int)
    ensures
        (0 <= i < files.len() && files[i].path == path && forall|k: int|
            i < k < files.len() ==> (#[trigger] files[k]).path != path) ==> last_entry(files, path)
            == Some(files[i]),
        (forall|k: int| 0 <= k < files.len() ==> (#[trigger] files[k]).path != path) ==> last_entry(
            files,
            path,
        ) is None,
    decreases files.len(),
{
    if files.len() > 0 {
        let front = files.drop_last();
        last_entry_counts(front, path, i);
        assert(files[files.len() - 1] == files.last());
        assert forall|k: int| 0 <= k < front.len() implies front[k] == #[trigger] files[k] by {}
        if forall|k: int| i < k < files.len() ==> (#[trigger] files[k]).path != path {
            assert forall|k: int| i < k < front.len() && 0 <= k implies (#[trigger] front[k]).path
                != path by {
                assert(front[k] == files[k]);
            }
        }
        if forall|k: int| 0 <= k < files.len() ==> (#[trigger] files[k]).path != path {
            assert forall|k: int| 0 <= k < front.len() implies (#[trigger] front[k]).path
                != path by {
                assert(front[k] == files[k]);
            }
        }
    }
}

/// After a write the file is known by the fingerprint of what was written, whatever its
/// line endings, and by its number of lines; a file that was not known counts as created.
pub proof fn written_file_is_known(l: LedgerView, path: Seq<char>, content: Seq<char>)
    ensures
        ({
            let next = after_write(l, path, content);
            let e = next.queue.last();
            &&& next.queue.len() == l.queue.len() + 1
            &&& next.queue.drop_last() == l.queue
            &&& e.path == path
            &&& e.line_count == line_count(content)
            &&& e.hash == Some(hash_of(lf_view(content)))
            &&& last_entry(l.files, path) is Some ==> e.op == "edited"@
            &&& last_entry(l.files, path) is None ==> e.op == "created"@
            &&& last_entry(next.files, path) == Some(e)
            &&& seen_hash(next, path) == Some(hash_of(lf_view(content)))
            &&& entry_for(next.cache.entries, path) is None
            &&& next.cache.last_read == l.cache.last_read
            &&& !next.shifts.contains_key(path)
            &&& forall|p: Seq<char>|
                p != path && l.shifts.contains_key(p) ==> next.shifts.contains_key(p)
                    && #[trigger] next.shifts[p] == l.shifts[p]
        }),
{
    let next = after_write(l, path, content);
    assert(next.queue.drop_last() =~= l.queue);
    crate::ledger::last_record_wins(l.files, next.queue.last(), path);
    crate::file_cache::invalidated_file_is_not_found(l.cache.entries, path);
}

/// After an edit the file is known by what it holds now, and its moves are added to those
/// recorded; other files keep theirs.
pub proof fn edited_file_is_known(
    l: LedgerView,
    path: Seq<char>,
    content: Seq<char>,
    shifts: Seq<(usize, i64)>,
)
    ensures
        ({
            let next = after_edit(l, path, content, shifts);
            let e = next.queue.last();
            let moves = shifts.filter(|s: (usize, i64)| s.1 != 0).map_values(
                |s: (usize, i64)| LineShift { before_line: s.0, delta: s.1 },
            );
            let earlier = if l.shifts.contains_key(path) {
                l.shifts[path]
            } else {
                Seq::empty()
            };
            &&& next.queue.drop_last() == l.queue
            &&& e.path == path
            &&& e.op == "edited"@
            &&& e.line_count == line_count(content)
            &&& e.hash == Some(hash_of(lf_view(content)))
            &&& last_entry(next.files, path) == Some(e)
            &&& entry_for(next.cache.entries, path) is None
            &&& next.shifts.contains_key(path)
            &&& moves.len() > 0 ==> next.shifts[path] == earlier.push(moves)
            &&& moves.len() == 0 ==> next.shifts[path] == earlier
            &&& forall|p: Seq<char>|
                p != path && l.shifts.contains_key(p) ==> next.shifts.contains_key(p)
                    && #[trigger] next.shifts[p] == l.shifts[p]
        }),
{
    let next = after_edit(l, path, content, shifts);
    assert(next.queue.drop_last() =~= l.queue);
    lemma_real_moves(shifts);
    crate::ledger::last_record_wins(l.files, next.queue.last(), path);
    crate::file_cache::invalidated_file_is_not_found(l.cache.entries, path);
}

proof fn lemma_real_moves(shifts: Seq<(usize, i64)>)
    ensures
        real_moves(shifts) == shifts.filter(|s: (usize, i64)| s.1 != 0).map_values(
            |s: (usize, i64)| LineShift { before_line: s.0, delta: s.1 },
        ),
    decreases shifts.len(),
{
    reveal(Seq::filter);
    let moves = |s: (usize, i64)| s.1 != 0;
    let of = |s: (usize, i64)| LineShift { before_line: s.0, delta: s.1 };
    if shifts.len() > 0 {
        let front = shifts.drop_last();
        lemma_real_moves(front);
        if shifts.last().1 != 0 {
            assert(front.filter(moves).push(shifts.last()).map_values(of) =~= front.filter(
                moves,
            ).map_values(of).push(of(shifts.last())));
        }
    }
    assert(real_moves(shifts) =~= shifts.filter(moves).map_values(of));
}

/// A change moves the lines from its own line on by its size, and no line before it; the
/// changes of one edit add up.
pub proof fn changes_move_what_stands_behind(
    a: Seq<LineShift>,
    m: LineShift,
    b: Seq<LineShift>,
    line: int,
)
    ensures
        line >= m.before_line ==> moved_by(seq![m], line) == m.delta,
        line < m.before_line ==> moved_by(seq![m], line) == 0,
        moved_by(a + b, line) == moved_by(a, line) + moved_by(b, line),
    decreases b.len(),
{
    reveal_with_fuel(moved_by, 2);
    assert(seq![m].drop_last() =~= Seq::<LineShift>::empty());
    if b.len() == 0 {
        assert(a + b =~= a);
    } else {
        changes_move_what_stands_behind(a, m, b.drop_last(), line);
        assert((a + b).drop_last() =~= a + b.drop_last());
        assert((a + b).last() == b.last());
    }
}

/// The edits of a file move a line one after the other, and together by as much as it takes
/// to get from where it was to where it is.
pub proof fn edits_add_up(a: Seq<Seq<LineShift>>, b: Seq<Seq<LineShift>>, line: int)
    ensures
        carried(a + b, line) == carried(a, line) + carried(b, line + carried(a, line)),
        carried(Seq::empty(), line) == 0,
        forall|one: Seq<LineShift>| #[trigger]
            carried(seq![one], line) == moved_by(one, line),
    decreases b.len(),
{
    assert forall|one: Seq<LineShift>| #[trigger] carried(seq![one], line) == moved_by(one, line) by {
        assert(seq![one].drop_last() =~= Seq::<Seq<LineShift>>::empty());
        assert(carried(Seq::empty(), line) == 0);
    }
    if b.len() == 0 {
        assert(a + b =~= a);
    } else {
        edits_add_up(a, b.drop_last(), line);
        assert((a + b).drop_last() =~= a + b.drop_last());
    }
}

/// A line that was shown is found where the edits since have carried it, but never before
/// the first line; of a file without recorded edits nothing is known.
pub proof fn shown_line_is_followed(l: LedgerView, path: Seq<char>, line: int)
    requires
        1 <= line <= usize::MAX,
    ensures
        corrected(l, path, line) is Some <==> l.shifts.contains_key(path),
        corrected(l, path, line) matches Some(p) ==> {
            let d = carried(l.shifts[path], line);
            &&& p.1 == d
            &&& 1 <= line + d <= usize::MAX ==> p.0 == line + d
            &&& line + d < 1 ==> p.0 == 1
            &&& line + d > usize::MAX ==> p.0 == usize::MAX
        },
{
}

/// A change made elsewhere is recorded under a name that is known, and what was shown of its
/// file is forgotten unless it was only read.
pub proof fn change_elsewhere_is_recorded(l: LedgerView, e: EntryView)
    ensures
        ({
            let known = e.op == "read"@ || e.op == "edited"@ || e.op == "created"@ || e.op
                == "deleted"@ || e.op == "moved"@;
            let next = adopted(l, e);
            &&& next.queue.len() == l.queue.len() + 1
            &&& next.queue.last().path == e.path
            &&& next.queue.last().line_count == e.line_count
            &&& next.queue.last().hash == e.hash
            &&& known ==> next.queue.last().op == e.op
            &&& !known ==> next.queue.last().op == "read"@
            &&& next.files.last() == next.queue.last()
            &&& next.shifts == l.shifts
            &&& known && e.op != "read"@ ==> entry_for(next.cache.entries, e.path) is None
            &&& !known || e.op == "read"@ ==> next.cache == l.cache
        }),
{
    crate::file_cache::invalidated_file_is_not_found(l.cache.entries, e.path);
}

/// A summary lists the files touched last, the last one first, each on a line of its own,
/// twenty at most; how many more there are is said at its end. Without files it is empty.
pub proof fn summary_lists_the_latest(files: Seq<EntryView>, n: int)
    ensures
        files.len() == 0 ==> summary_text(files).len() == 0,
        0 < n <= files.len() ==> summary_lines(files, n) == summary_lines(files, n - 1)
            + summary_line(files[files.len() - n]),
        summary_lines(files, 0).len() == 0,
        0 < files.len() <= 20 ==> summary_text(files) == "<file_state>\n"@ + summary_lines(
            files,
            files.len() as int,
        ) + "</file_state>"@,
        files.len() > 20 ==> summary_text(files) == "<file_state>\n"@ + summary_lines(files, 20)
            + ("  ... ("@ + crate::format::dec((files.len() - 20) as nat) + " more files)\n"@)
            + "</file_state>"@,
{
    reveal_strlit("");
    if 0 < files.len() <= 20 {
        assert("<file_state>\n"@ + summary_lines(files, files.len() as int) + ""@
            =~= "<file_state>\n"@ + summary_lines(files, files.len() as int));
    }
}

/// A cache remembers a file once, and never more files than it has room for: the oldest
/// other file is forgotten, and only where there is no room.
pub proof fn cache_makes_room_for_the_newest(entries: Seq<CachedView>, e: CachedView)
    requires
        entries.len() <= MAX_CACHE,
    ensures
        ({
            let others = entries.filter(|x: CachedView| x.path != e.path);
            let next = stored(entries, e);
            &&& next.len() <= 64
            &&& next.last() == e
            &&& others.len() < 64 ==> next.drop_last() == others
            &&& others.len() == 64 ==> next.drop_last() == others.skip(1)
        }),
{
    lemma_not_for(entries, e.path);
    let next = stored(entries, e);
    let others = not_for(entries, e.path);
    if others.len() < 64 {
        assert(next.drop_last() =~= others);
    } else {
        assert(next.drop_last() =~= others.skip(1));
    }
}

proof fn lemma_not_for(entries: Seq<CachedView>, path: Seq<char>)
    ensures
        not_for(entries, path) == entries.filter(|x: CachedView| x.path != path),
        not_for(entries, path).len() <= entries.len(),
    decreases entries.len(),
{
    reveal(Seq::filter);
    if entries.len() > 0 {
        lemma_not_for(entries.drop_last(), path);
    }
    assert(not_for(entries, path) =~= entries.filter(|x: CachedView| x.path != path));
}

/// Forgetting a file leaves the others as they were.
pub proof fn other_files_stay_cached(entries: Seq<CachedView>, path: Seq<char>)
    ensures
        not_for(entries, path) == entries.filter(|x: CachedView| x.path != path),
{
    lemma_not_for(entries, path);
}

/// A file is unchanged only if it is remembered with the very fingerprint it has now, and
/// was not the last one that was looked up.
pub proof fn changed_file_is_sent(cache: CacheView, path: Seq<char>, hash: Seq<char>)
    ensures
        unchanged(cache, path, hash) ==> cache.last_read != Some(path) && exists|i: int|
            0 <= i < cache.entries.len() && (#[trigger] cache.entries[i]).path == path
                && cache.entries[i].hash == hash,
        looked_up(cache, path, hash).last_read == Some(path),
        !unchanged(cache, path, hash) ==> looked_up(cache, path, hash).entries == cache.entries,
        unchanged(cache, path, hash) ==> looked_up(cache, path, hash).entries.len() > 0
            && looked_up(cache, path, hash).entries.last().path == path && looked_up(
            cache,
            path,
            hash,
        ).entries.drop_last() == cache.entries.filter(|x: CachedView| x.path != path),
{
    lemma_entry_for(cache.entries, path);
    lemma_not_for(cache.entries, path);
    if unchanged(cache, path, hash) {
        assert(looked_up(cache, path, hash).entries.drop_last() =~= not_for(cache.entries, path));
    }
}

proof fn lemma_entry_for(entries: Seq<CachedView>, path: Seq<char>)
    ensures
        entry_for(entries, path) matches Some(e) ==> e.path == path && exists|i: int|
            0 <= i < entries.len() && #[trigger] entries[i] == e,
    decreases entries.len(),
{
    if entries.len() > 0 && entries[0].path != path {
        lemma_entry_for(entries.skip(1), path);
        if entry_for(entries.skip(1), path) is Some {
            let e = entry_for(entries.skip(1), path)->0;
            let i = choose|i: int|
                0 <= i < entries.skip(1).len() && #[trigger] entries.skip(1)[i] == e;
            assert(entries[i + 1] == e);
        }
    }
}

/// A short form is the start of its text, eight characters where there are as many.
pub proof fn short_form_is_the_start(s: Seq<char>)
    ensures
        first8(s).is_prefix_of(s),
        first8(s).len() == (if s.len() < 8 {
            s.len()
        } else {
            8
        }),
{
    assert(s.take(s.len() as int) =~= s);
}

/// A number is written with as many hexadecimal digits as asked for, the last one being its
/// rest by sixteen.
pub proof fn hexadecimal_digits_are_those_of_the_number(n: nat, k: nat)
    ensures
        hex_digits(n, k).len() == k,
        k > 0 ==> hex_digits(n, k).last() == hex_digit((n % 16) as int),
        k > 0 ==> hex_digits(n, k).drop_last() == hex_digits(n / 16, (k - 1) as nat),
    decreases k,
{
    if k > 0 {
        hexadecimal_digits_are_those_of_the_number(n / 16, (k - 1) as nat);
        assert(hex_digits(n, k).drop_last() =~= hex_digits(n / 16, (k - 1) as nat));
    }
}

} // verus!
