//! What holds of every patch.

use vstd::prelude::*;

use crate::apply_patch_engine::engine::{hunk_change, hunk_well_kept, ChangeView, Target};
use crate::apply_patch_engine::file_update::{
    after_context, between_kept, by_start, ended, ended_reps, glued, line_texts, preferred_ending,
    raw_lines_from, rebuilt, rep_fits, replacements_upto, reps_fit, updated_contents, updated_lines, well_kept, RepView,
    UpdateMode,
};
use crate::apply_patch_engine::parser::{
    body_end, body_of, body_step, bounded_lines, empty_chunk, environment_of, head_of, hunk_at,
    hunks_of, lemma_hunk_takes_lines, move_target, parsed, patch_lines, with_line, Body, ChunkView,
    Head, HunkView,
};
use crate::apply_patch_engine::seek_sequence::{found_lines_are_in_the_file, sought};
use crate::text::is_blank;

verus! {

spec fn all_well_kept(chunks: Seq<ChunkView>) -> bool {
    forall|i: int| 0 <= i < chunks.len() ==> well_kept(#[trigger] chunks[i])
}

proof fn lemma_with_line(c: ChunkView, mark: char, text: Seq<char>)
    requires
        well_kept(c),
    ensures
        well_kept(with_line(c, mark, text)),
{
    let d = with_line(c, mark, text);
    if mark != '+' && mark != '-' {
        assert forall|i: int| 0 <= i < d.kept.len() implies 0 <= (#[trigger] d.kept[i]).0
            < d.old_lines.len() && 0 <= d.kept[i].1 < d.new_lines.len() by {
            if i < c.kept.len() {
                assert(d.kept[i] == c.kept[i]);
            }
        }
        assert forall|i: int, j: int| 0 <= i < j < d.kept.len() implies (#[trigger] d.kept[i]).0 < (
        #[trigger] d.kept[j]).0 && d.kept[i].1 < d.kept[j].1 by {
            assert(d.kept[i] == c.kept[i]);
            if j < c.kept.len() {
                assert(d.kept[j] == c.kept[j]);
            }
        }
    }
}

proof fn lemma_body_step(b: Body, line: Seq<char>)
    requires
        all_well_kept(b.chunks),
    ensures
        body_step(b, line) matches Ok(c) ==> all_well_kept(c.chunks),
{
    assert(well_kept(empty_chunk(None)));
    if line.len() >= 3 {
        assert(well_kept(empty_chunk(Some(line.skip(3)))));
    }
    let started = if b.chunks.len() == 0 {
        seq![empty_chunk(None)]
    } else {
        b.chunks
    };
    assert(well_kept(started.last())) by {
        if b.chunks.len() > 0 {
            assert(well_kept(b.chunks[b.chunks.len() - 1]));
        }
    }
    lemma_with_line(started.last(), ' ', Seq::<char>::empty());
    if line.len() > 0 {
        lemma_with_line(started.last(), line[0], line.skip(1));
    }
    match body_step(b, line) {
        Ok(c) => {
            assert forall|i: int| 0 <= i < c.chunks.len() implies well_kept(#[trigger] c.chunks[i]) by {
                if i < b.chunks.len() - 1 {
                    assert(c.chunks[i] == b.chunks[i]);
                } else if i < b.chunks.len() {
                    assert(well_kept(b.chunks[i]));
                    if c.chunks[i] != b.chunks[i] {
                        let last = b.chunks.last();
                        assert(well_kept(ChunkView { eof: true, ..last }));
                    }
                }
            }
        },
        Err(_) => {},
    }
}

proof fn lemma_body_of(lines: Seq<Seq<char>>, i: int, j: int)
    ensures
        body_of(lines, i, j) matches Ok(b) ==> all_well_kept(b.chunks),
    decreases j - i,
{
    if j > i {
        lemma_body_of(lines, i, j - 1);
        if let Ok(b) = body_of(lines, i, j - 1) {
            lemma_body_step(b, lines[j - 1]);
        }
    }
}

proof fn lemma_hunks_of(lines: Seq<Seq<char>>, i: int, end: int)
    ensures
        hunks_of(lines, i, end) matches Ok(hs) ==> forall|k: int|
            0 <= k < hs.len() ==> hunk_well_kept(#[trigger] hs[k]),
    decreases end - i,
{
    if i < end {
        if is_blank(lines[i]) {
            lemma_hunks_of(lines, i + 1, end);
        } else {
            lemma_hunk_takes_lines(lines, i, end);
            if let Some(Head::Update(path)) = head_of(lines[i]) {
                let from = if move_target(lines, i + 1, end) is Some {
                    i + 2
                } else {
                    i + 1
                };
                lemma_body_of(lines, from, body_end(lines, from, end));
            }
            if let Ok((h, j)) = hunk_at(lines, i, end) {
                lemma_hunks_of(lines, j, end);
                if let Ok(rest) = hunks_of(lines, j, end) {
                    let all = seq![h] + rest;
                    assert forall|k: int| 0 <= k < all.len() implies hunk_well_kept(
                        #[trigger] all[k],
                    ) by {
                        if k > 0 {
                            assert(all[k] == rest[k - 1]);
                        }
                    }
                }
            }
        }
    }
}

/// The changes of a parsed patch remember their context lines in order.
pub proof fn parsed_changes_are_in_order(patch: Seq<char>)
    ensures
        parsed(patch) matches Ok(p) ==> forall|k: int|
            0 <= k < p.1.len() ==> hunk_well_kept(#[trigger] p.1[k]),
{
    if let Ok(lines) = bounded_lines(patch_lines(patch)) {
        let from = if environment_of(lines) is Some {
            2int
        } else {
            1
        };
        lemma_hunks_of(lines, from, lines.len() - 1);
    }
}

/// A dry run of an update or a deletion sees every failure that applying it sees, and
/// works out the same change.
pub proof fn dry_run_agrees_with_apply(
    h: HunkView,
    resolved: Seq<char>,
    target: Target,
    mode: UpdateMode,
)
    requires
        !(h is AddFile && target is Directory),
    ensures
        hunk_change(h, resolved, target, mode, true) == hunk_change(
            h,
            resolved,
            target,
            mode,
            false,
        ),
{
}

/// An added file holds exactly what the patch says.
pub proof fn added_file_holds_the_patch_text(
    path: Seq<char>,
    contents: Seq<char>,
    resolved: Seq<char>,
    target: Target,
    mode: UpdateMode,
)
    ensures
        hunk_change(
            HunkView::AddFile { path, contents },
            resolved,
            target,
            mode,
            false,
        ) matches Ok(p) && p.0 == ChangeView::Write(contents),
{
}

/// The lines that a change comes to in a file, where its old lines stand at `i`: its
/// context lines are the file's own, and its added lines get the line break `eol`.
pub open spec fn rewritten(
    lines: Seq<Seq<char>>,
    c: ChunkView,
    i: int,
    eol: Seq<char>,
) -> Seq<Seq<char>> {
    Seq::new(
        c.new_lines.len(),
        |j: int|
            match context_line(c, j) {
                Some(o) => lines[i + o],
                None => c.new_lines[j] + eol,
            },
    )
}

/// The old line that the new line `j` of a change is, where it is context.
pub open spec fn context_line(c: ChunkView, j: int) -> Option<int> {
    if exists|k: int| 0 <= k < c.kept.len() && (#[trigger] c.kept[k]).1 == j {
        let k = choose|k: int| 0 <= k < c.kept.len() && (#[trigger] c.kept[k]).1 == j;
        Some(c.kept[k].0)
    } else {
        None
    }
}

proof fn lemma_context_line(c: ChunkView, k: int)
    requires
        well_kept(c),
        0 <= k < c.kept.len(),
    ensures
        context_line(c, c.kept[k].1) == Some(c.kept[k].0),
{
    let j = c.kept[k].1;
    let m = choose|m: int| 0 <= m < c.kept.len() && (#[trigger] c.kept[m]).1 == j;
    assert(c.kept[m].1 == j);
    if m < k {
        assert(c.kept[m].1 < c.kept[k].1);
    } else if k < m {
        assert(c.kept[k].1 < c.kept[m].1);
    }
}

/// No line of the new lines `n..nc` is context, when `n` comes right behind the context
/// line `k - 1` and `nc` is at or before the context line `k`.
proof fn lemma_between_is_new(c: ChunkView, k: int, n: int, nc: int, j: int)
    requires
        well_kept(c),
        0 <= k <= c.kept.len(),
        n == (if k == 0 {
            0
        } else {
            c.kept[k - 1].1 + 1
        }),
        nc == (if k == c.kept.len() {
            c.new_lines.len() as int
        } else {
            c.kept[k].1
        }),
        n <= j < nc,
    ensures
        context_line(c, j) is None,
{
    if exists|m: int| 0 <= m < c.kept.len() && (#[trigger] c.kept[m]).1 == j {
        let m = choose|m: int| 0 <= m < c.kept.len() && (#[trigger] c.kept[m]).1 == j;
        if m < k {
            if m < k - 1 {
                assert(c.kept[m].1 < c.kept[k - 1].1);
            }
            assert(c.kept[m].1 < n);
        } else {
            if m > k {
                assert(c.kept[k].1 < c.kept[m].1);
            }
            assert(c.kept[m].1 >= nc);
        }
        assert(false);
    }
}

spec fn starts_from(reps: Seq<RepView>, from: int) -> bool {
    &&& forall|k: int| 0 <= k < reps.len() ==> (#[trigger] reps[k]).start >= from
    &&& forall|k: int, m: int|
        0 <= k < m < reps.len() ==> (#[trigger] reps[k]).start <= (#[trigger] reps[m]).start
}

proof fn lemma_sorted_stay(reps: Seq<RepView>, from: int)
    requires
        starts_from(reps, from),
    ensures
        by_start(reps) == reps,
    decreases reps.len(),
{
    if reps.len() > 0 {
        let front = reps.drop_last();
        assert forall|k: int, m: int| 0 <= k < m < front.len() implies (#[trigger] front[k]).start <= (
        #[trigger] front[m]).start by {
            assert(reps[k].start <= reps[m].start);
        }
        lemma_sorted_stay(front, from);
        if front.len() > 0 {
            assert(reps[front.len() - 1].start <= reps[reps.len() - 1].start);
        }
        assert(front.push(reps.last()) =~= reps);
    } else {
        assert(by_start(reps) =~= reps);
    }
}

proof fn lemma_line_passes(lines: Seq<Seq<char>>, reps: Seq<RepView>, from: int)
    requires
        0 <= from < lines.len(),
        forall|k: int| 0 <= k < reps.len() ==> (#[trigger] reps[k]).start > from,
        forall|k: int|
            0 <= k < reps.len() ==> (#[trigger] reps[k]).old_len >= 0 && reps[k].start
                <= lines.len(),
    ensures
        rebuilt(lines, reps, from) == seq![lines[from]] + rebuilt(lines, reps, from + 1),
{
    if reps.len() == 0 {
        assert(lines.skip(from) =~= seq![lines[from]] + lines.skip(from + 1));
    } else {
        let r = reps[0];
        assert(r.start > from);
        assert(lines.subrange(from, r.start) =~= seq![lines[from]] + lines.subrange(
            from + 1,
            r.start,
        ));
        let rest = rebuilt(lines, reps.skip(1), r.start + r.old_len);
        assert(seq![lines[from]] + lines.subrange(from + 1, r.start) + r.new_lines + rest
            =~= seq![lines[from]] + (lines.subrange(from + 1, r.start) + r.new_lines + rest));
    }
}

/// The first old line behind the context line `k - 1`.
spec fn old_from(c: ChunkView, k: int) -> int {
    if k == 0 {
        0
    } else {
        c.kept[k - 1].0 + 1
    }
}

/// The first new line behind the context line `k - 1`.
spec fn new_from(c: ChunkView, k: int) -> int {
    if k == 0 {
        0
    } else {
        c.kept[k - 1].1 + 1
    }
}

/// The replacements of a change from its context line `k` on.
spec fn reps_from(c: ChunkView, k: int, i: int) -> Seq<RepView> {
    between_kept(
        c.kept,
        k,
        old_from(c, k),
        new_from(c, k),
        c.old_lines.len() as int,
        c.new_lines,
        i,
    )
}

/// The replacements of a change from its context line `k` on rewrite what is left of it.
proof fn lemma_rewritten(lines: Seq<Seq<char>>, c: ChunkView, k: int, i: int, eol: Seq<char>)
    requires
        well_kept(c),
        0 <= k <= c.kept.len(),
        0 <= i,
        i + c.old_lines.len() <= lines.len(),
    ensures
        starts_from(reps_from(c, k, i), i + old_from(c, k)),
        reps_fit(reps_from(c, k, i), lines.len() as int),
        rebuilt(lines, ended_reps(reps_from(c, k, i), eol), i + old_from(c, k)) == rewritten(
            lines,
            c,
            i,
            eol,
        ).skip(new_from(c, k)) + lines.skip(i + c.old_lines.len()),
    decreases c.kept.len() - k,
{
    let pat = c.old_lines.len() as int;
    let total = c.new_lines.len() as int;
    let o = old_from(c, k);
    let n = new_from(c, k);
    let all = rewritten(lines, c, i, eol);
    let reps = reps_from(c, k, i);
    let er = ended_reps(reps, eol);
    if k > 0 {
        assert(c.kept[k - 1].0 < pat && c.kept[k - 1].1 < total);
    }
    if k == c.kept.len() {
        assert(all.skip(n) =~= ended(c.new_lines.skip(n), eol)) by {
            assert forall|j: int| n <= j < total implies #[trigger] all[j] == c.new_lines[j] + eol by {
                lemma_between_is_new(c, k, n, total, j);
            }
        }
        if o != pat || n != total {
            assert(er.len() == 1);
            assert(er.skip(1) =~= Seq::<RepView>::empty());
            assert(lines.subrange(i + o, i + o) =~= Seq::<Seq<char>>::empty());
            assert(rebuilt(lines, er.skip(1), i + pat) == lines.skip(i + pat));
            assert(rebuilt(lines, er, i + o) =~= all.skip(n) + lines.skip(i + pat));
        } else {
            assert(er =~= Seq::<RepView>::empty());
            assert(rebuilt(lines, er, i + o) =~= all.skip(n) + lines.skip(i + pat));
        }
    } else {
        let (oc, nc) = c.kept[k];
        assert(oc < pat && nc < total);
        assert(o <= oc && n <= nc) by {
            if k > 0 {
                assert(c.kept[k - 1].0 < c.kept[k].0 && c.kept[k - 1].1 < c.kept[k].1);
            }
        }
        lemma_rewritten(lines, c, k + 1, i, eol);
        let rest = reps_from(c, k + 1, i);
        let erest = ended_reps(rest, eol);
        assert forall|m: int| 0 <= m < erest.len() implies (#[trigger] erest[m]).start > i + oc by {
            assert(rest[m].start >= i + oc + 1);
        }
        assert forall|m: int| 0 <= m < erest.len() implies (#[trigger] erest[m]).old_len >= 0
            && erest[m].start <= lines.len() by {
            assert(rep_fits(rest[m], lines.len() as int));
        }
        lemma_line_passes(lines, erest, i + oc);
        lemma_context_line(c, k);
        assert(all[nc] == lines[i + oc]);
        let tail = lines.skip(i + pat);
        if o != oc || n != nc {
            let r = RepView {
                start: i + o,
                old_len: oc - o,
                new_lines: c.new_lines.subrange(n, nc),
            };
            assert(reps =~= seq![r] + rest);
            assert(er[0] == (RepView { new_lines: ended(r.new_lines, eol), ..r }));
            assert(er.skip(1) =~= erest);
            assert(lines.subrange(i + o, i + o) =~= Seq::<Seq<char>>::empty());
            assert(ended(r.new_lines, eol) =~= all.subrange(n, nc)) by {
                assert forall|j: int| n <= j < nc implies #[trigger] all[j] == c.new_lines[j] + eol by {
                    lemma_between_is_new(c, k, n, nc, j);
                }
            }
            assert(all.skip(n) =~= all.subrange(n, nc) + seq![all[nc]] + all.skip(nc + 1));
            assert(rebuilt(lines, er, i + o) =~= all.subrange(n, nc) + (seq![all[nc]] + (all.skip(
                nc + 1,
            ) + tail)));
            assert(rebuilt(lines, er, i + o) =~= all.skip(n) + tail);
            assert forall|m: int| 0 <= m < reps.len() implies (#[trigger] reps[m]).start >= i + o by {
                if m > 0 {
                    assert(reps[m] == rest[m - 1]);
                }
            }
            assert forall|a: int, b: int| 0 <= a < b < reps.len() implies (#[trigger] reps[a]).start <= (
            #[trigger] reps[b]).start by {
                assert(reps[b] == rest[b - 1]);
                if a > 0 {
                    assert(reps[a] == rest[a - 1]);
                }
            }
            assert forall|m: int| 0 <= m < reps.len() implies rep_fits(
                #[trigger] reps[m],
                lines.len() as int,
            ) by {
                if m > 0 {
                    assert(reps[m] == rest[m - 1]);
                    assert(rep_fits(rest[m - 1], lines.len() as int));
                }
            }
        } else {
            assert(reps =~= rest);
            assert(all.skip(n) =~= seq![all[nc]] + all.skip(nc + 1));
            assert(rebuilt(lines, er, i + o) =~= all.skip(n) + tail);
        }
    }
}

/// A patch of one change rewrites the lines that it names and no others: the file's lines
/// before and behind them stay as they are, byte for byte, and so do the change's context
/// lines, however loosely they were matched. The added lines get the line break of the
/// file.
pub proof fn one_change_rewrites_its_lines(
    original: Seq<char>,
    path: Seq<char>,
    c: ChunkView,
    from: int,
    i: int,
)
    requires
        well_kept(c),
        c.old_lines.len() > 0,
        ({
            let texts = line_texts(raw_lines_from(original, 0));
            &&& after_context(texts, path, c, 0, UpdateMode::PreserveLineEndings) == Ok::<
                int,
                Seq<char>,
            >(from)
            &&& sought(texts, c.old_lines, from, c.eof, UpdateMode::PreserveLineEndings) == Some(i)
        }),
    ensures
        ({
            let raw = raw_lines_from(original, 0);
            let eol = preferred_ending(raw);
            updated_contents(original, path, seq![c], UpdateMode::PreserveLineEndings) == Ok::<
                Seq<char>,
                Seq<char>,
            >(
                glued(
                    raw.take(i) + rewritten(raw, c, i, eol) + raw.skip(i + c.old_lines.len()),
                    eol,
                ),
            )
        }),
{
    let mode = UpdateMode::PreserveLineEndings;
    let raw = raw_lines_from(original, 0);
    let texts = line_texts(raw);
    let eol = preferred_ending(raw);
    let chunks = seq![c];
    let reps = reps_from(c, 0, i);
    found_lines_are_in_the_file(texts, c.old_lines, from, c.eof, mode);
    assert(replacements_upto(texts, path, chunks, 0, mode) == Ok::<(Seq<RepView>, int), Seq<char>>(
        (Seq::<RepView>::empty(), 0),
    ));
    assert(chunks[0] == c);
    assert(Seq::<RepView>::empty() + reps =~= reps);
    lemma_rewritten(raw, c, 0, i, eol);
    lemma_sorted_stay(reps, i);
    assert(updated_lines(texts, path, chunks, mode) == Ok::<Seq<RepView>, Seq<char>>(reps)) by {
        reveal_with_fuel(replacements_upto, 2);
    }
    let er = ended_reps(reps, eol);
    let all = rewritten(raw, c, i, eol);
    let tail = raw.skip(i + c.old_lines.len());
    assert forall|m: int| 0 <= m < er.len() implies (#[trigger] er[m]).start >= i && er[m].old_len
        >= 0 && er[m].start <= raw.len() by {
        assert(reps[m].start >= i);
        assert(rep_fits(reps[m], raw.len() as int));
    }
    lemma_lines_pass(raw, er, 0, i);
    assert(all.skip(0) =~= all);
    assert(rebuilt(raw, er, 0) =~= raw.take(i) + all + tail);
}

proof fn lemma_lines_pass(lines: Seq<Seq<char>>, reps: Seq<RepView>, from: int, to: int)
    requires
        0 <= from <= to <= lines.len(),
        forall|m: int|
            0 <= m < reps.len() ==> (#[trigger] reps[m]).start >= to && reps[m].old_len >= 0
                && reps[m].start <= lines.len(),
    ensures
        rebuilt(lines, reps, from) == lines.subrange(from, to) + rebuilt(lines, reps, to),
    decreases to - from,
{
    if from < to {
        lemma_line_passes(lines, reps, from);
        lemma_lines_pass(lines, reps, from + 1, to);
        assert(lines.subrange(from, to) =~= seq![lines[from]] + lines.subrange(from + 1, to));
        assert(seq![lines[from]] + (lines.subrange(from + 1, to) + rebuilt(lines, reps, to))
            =~= lines.subrange(from, to) + rebuilt(lines, reps, to));
    } else {
        assert(lines.subrange(from, to) + rebuilt(lines, reps, to) =~= rebuilt(lines, reps, to));
    }
}

} // verus!
