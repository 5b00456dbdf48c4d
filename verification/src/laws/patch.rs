//! What holds of every change of a patch: where it is placed, what it replaces, and what it
//! leaves as it was.

use vstd::prelude::*;

use crate::apply_patch_engine::file_update::{
    as_file, between_kept, by_start, chunk_replacements, closed_all, ended_reps, glued,
    lemma_next_line_moves, line_ending, line_text, line_texts, matched, preferred_ending, put_rep,
    raw_lines_from, rebuilt, replacements_upto, updated_contents, well_kept, RepView, UpdateMode,
};
use crate::apply_patch_engine::laws::{one_change_rewrites_its_lines, rewritten};
use crate::apply_patch_engine::parser::ChunkView;
use crate::apply_patch_engine::seek_sequence::{
    first_match, match_at, plain_char, search_start, seen_at, sought, tiered,
};
use crate::file_shared::lf_view;
use crate::lines::{join, nl};
use crate::numbered::counted_lines;
use crate::raw_lines::{breaks_off, closed_off, next_line};
use crate::text::{trim, trim_end};

verus! {

proof fn lemma_first_match(lines: Seq<Seq<char>>, pat: Seq<Seq<char>>, i: int, tier: int)
    requires
        0 <= i,
        pat.len() > 0,
    ensures
        first_match(lines, pat, i, tier) matches Some(p) ==> i <= p && match_at(lines, pat, p, tier)
            && forall|q: int| i <= q < p ==> !match_at(lines, pat, q, tier),
        first_match(lines, pat, i, tier) is None ==> forall|q: int|
            i <= q ==> !match_at(lines, pat, q, tier),
    decreases lines.len() - i,
{
    if i + pat.len() <= lines.len() && !match_at(lines, pat, i, tier) {
        lemma_first_match(lines, pat, i + 1, tier);
    }
}

proof fn lemma_tiered(lines: Seq<Seq<char>>, pat: Seq<Seq<char>>, i: int, tier: int)
    requires
        0 <= i,
        0 <= tier <= 4,
        pat.len() > 0,
    ensures
        tiered(lines, pat, i, tier) matches Some(p) ==> i <= p && exists|t: int|
            tier <= t < 4 && #[trigger] match_at(lines, pat, p, t) && (forall|q: int|
                i <= q < p ==> !match_at(lines, pat, q, t)) && (forall|u: int, q: int|
                tier <= u < t && i <= q ==> !match_at(lines, pat, q, u)),
        tiered(lines, pat, i, tier) is None ==> forall|u: int, q: int|
            tier <= u < 4 && i <= q ==> !match_at(lines, pat, q, u),
    decreases 4 - tier,
{
    if tier < 4 {
        lemma_first_match(lines, pat, i, tier);
        lemma_tiered(lines, pat, i, tier + 1);
        if let Some(p) = first_match(lines, pat, i, tier) {
            assert(match_at(lines, pat, p, tier));
        } else if let Some(p) = tiered(lines, pat, i, tier + 1) {
            let t = choose|t: int|
                tier + 1 <= t < 4 && #[trigger] match_at(lines, pat, p, t) && (forall|q: int|
                    i <= q < p ==> !match_at(lines, pat, q, t)) && (forall|u: int, q: int|
                    tier + 1 <= u < t && i <= q ==> !match_at(lines, pat, q, u));
            assert(match_at(lines, pat, p, t));
            assert forall|u: int, q: int| tier <= u < t && i <= q implies !match_at(
                lines,
                pat,
                q,
                u,
            ) by {
                if u == tier {
                    assert(!match_at(lines, pat, q, tier));
                }
            }
        }
    }
}

/// A pattern is found at the first place, from the start of the search on, where the
/// strictest tier that finds it anywhere does; it is missed only where no tier finds it.
pub proof fn strictest_tier_decides(
    lines: Seq<Seq<char>>,
    pat: Seq<Seq<char>>,
    start: int,
    mode: UpdateMode,
)
    requires
        pat.len() > 0,
        0 <= start,
    ensures
        sought(lines, pat, start, false, mode) matches Some(p) ==> start <= p && exists|t: int|
            0 <= t < 4 && #[trigger] match_at(lines, pat, p, t) && (forall|q: int|
                start <= q < p ==> !match_at(lines, pat, q, t)) && (forall|u: int, q: int|
                0 <= u < t && start <= q ==> !match_at(lines, pat, q, u)),
        sought(lines, pat, start, false, mode) is None ==> forall|u: int, q: int|
            0 <= u < 4 && start <= q ==> !match_at(lines, pat, q, u),
{
    lemma_tiered(lines, pat, start, 0);
}

/// What ends the file is found at its end and nowhere else, and there it is found whenever
/// some tier sees it.
pub proof fn end_of_file_is_at_the_end(
    lines: Seq<Seq<char>>,
    pat: Seq<Seq<char>>,
    start: int,
    mode: UpdateMode,
)
    requires
        pat.len() > 0,
        0 <= start,
    ensures
        sought(lines, pat, start, true, mode) matches Some(p) ==> p + pat.len() == lines.len(),
        sought(lines, pat, start, true, mode) matches Some(p) ==> (mode
            == UpdateMode::PreserveLineEndings ==> start <= p),
        start + pat.len() <= lines.len() ==> (sought(lines, pat, start, true, mode) is Some
            <==> exists|t: int|
            0 <= t < 4 && #[trigger] match_at(lines, pat, lines.len() - pat.len(), t)),
{
    if pat.len() <= lines.len() {
        let at = search_start(lines, pat, start, true, mode);
        lemma_tiered(lines, pat, at, 0);
        if let Some(p) = sought(lines, pat, start, true, mode) {
            let t = choose|t: int| 0 <= t < 4 && #[trigger] match_at(lines, pat, p, t);
            assert(match_at(lines, pat, p, t));
        }
    }
}

/// What the tiers compare: lines as they are, without white space at the end, without
/// white space at either end, and so in plain characters.
pub proof fn tiers_compare_less_and_less(s: Seq<char>)
    ensures
        seen_at(0, s) == s,
        seen_at(1, s) == trim_end(s),
        seen_at(2, s) == trim(s),
        seen_at(3, s).len() == trim(s).len(),
        forall|i: int|
            0 <= i < trim(s).len() ==> #[trigger] seen_at(3, s)[i] == plain_char(trim(s)[i]),
{
}

/// Dashes, quotes and spaces of typography count as the plain ones, and every other
/// character as itself.
pub proof fn typography_is_made_plain(c: char)
    ensures
        ({
            let n = c as u32;
            &&& (n == 0x2010 || n == 0x2011 || n == 0x2012 || n == 0x2013 || n == 0x2014 || n
                == 0x2015 || n == 0x2212) <==> plain_char(c) == '-' && c != '-'
            &&& (n == 0x2018 || n == 0x2019 || n == 0x201a || n == 0x201b) <==> plain_char(c)
                == '\'' && c != '\''
            &&& (n == 0x201c || n == 0x201d || n == 0x201e || n == 0x201f) <==> plain_char(c)
                == '"' && c != '"'
            &&& (n == 0xa0 || n == 0x2002 || n == 0x2003 || n == 0x2004 || n == 0x2005 || n
                == 0x2006 || n == 0x2007 || n == 0x2008 || n == 0x2009 || n == 0x200a || n == 0x202f
                || n == 0x205f || n == 0x3000) <==> plain_char(c) == ' ' && c != ' '
            &&& plain_char(c) == c || plain_char(c) == '-' || plain_char(c) == '\'' || plain_char(c)
                == '"' || plain_char(c) == ' '
        }),
{
}

/// An exact match is the pattern itself.
pub proof fn exact_match_is_equality(lines: Seq<Seq<char>>, pat: Seq<Seq<char>>, i: int)
    requires
        0 <= i,
        i + pat.len() <= lines.len(),
    ensures
        match_at(lines, pat, i, 0) <==> lines.subrange(i, i + pat.len()) == pat,
{
    let part = lines.subrange(i, i + pat.len());
    if match_at(lines, pat, i, 0) {
        assert forall|k: int| 0 <= k < pat.len() implies part[k] == pat[k] by {
            assert(seen_at(0, lines[i + k]) == seen_at(0, pat[k]));
        }
        assert(part =~= pat);
    } else if part == pat {
        assert forall|k: int| 0 <= k < pat.len() implies seen_at(0, lines[i + k]) == seen_at(
            0,
            #[trigger] pat[k],
        ) by {
            assert(part[k] == lines[i + k]);
        }
    }
}

proof fn lemma_between_starts(
    c: ChunkView,
    k: int,
    o: int,
    n: int,
    pat_len: int,
    new_lines: Seq<Seq<char>>,
    start: int,
)
    requires
        well_kept(c),
        0 <= k <= c.kept.len(),
        0 <= o,
        k < c.kept.len() ==> o <= c.kept[k].0,
    ensures
        forall|m: int|
            0 <= m < between_kept(c.kept, k, o, n, pat_len, new_lines, start).len() ==> (
            #[trigger] between_kept(c.kept, k, o, n, pat_len, new_lines, start)[m]).start >= start,
    decreases c.kept.len() - k,
{
    if !(k >= c.kept.len() || c.kept[k].0 >= pat_len || c.kept[k].1 >= new_lines.len()) {
        let (oc, nc) = c.kept[k];
        if k + 1 < c.kept.len() {
            assert(c.kept[k].0 < c.kept[k + 1].0);
        }
        lemma_between_starts(c, k + 1, oc + 1, nc + 1, pat_len, new_lines, start);
        let rest = between_kept(c.kept, k + 1, oc + 1, nc + 1, pat_len, new_lines, start);
        let all = between_kept(c.kept, k, o, n, pat_len, new_lines, start);
        assert forall|m: int| 0 <= m < all.len() implies (#[trigger] all[m]).start >= start by {
            if o != oc || n != nc {
                if m > 0 {
                    assert(all[m] == rest[m - 1]);
                }
            } else {
                assert(all[m] == rest[m]);
            }
        }
    }
}

/// A change is never placed before the line from which it is looked for: neither the lines
/// it replaces nor the line behind it. (A change that must end the file is looked for at
/// the end of a file whose line endings are made one, wherever that is.)
pub proof fn change_lies_where_it_is_looked_for(
    lines: Seq<Seq<char>>,
    path: Seq<char>,
    c: ChunkView,
    from: int,
    mode: UpdateMode,
)
    requires
        0 <= from,
        well_kept(c),
        c.old_lines.len() > 0,
        c.eof ==> mode == UpdateMode::PreserveLineEndings,
        chunk_replacements(lines, path, c, from, mode) is Ok,
    ensures
        ({
            let (reps, next) = chunk_replacements(lines, path, c, from, mode)->Ok_0;
            &&& next >= from
            &&& forall|m: int| 0 <= m < reps.len() ==> (#[trigger] reps[m]).start >= from
        }),
{
    let at = match c.context {
        None => from,
        Some(ctx) => {
            strictest_tier_decides(lines, seq![ctx], from, mode);
            sought(lines, seq![ctx], from, false, mode)->0 + 1
        },
    };
    lemma_placed(lines, path, c, from, at, mode);
}

proof fn lemma_placed(
    lines: Seq<Seq<char>>,
    path: Seq<char>,
    c: ChunkView,
    from: int,
    at: int,
    mode: UpdateMode,
)
    requires
        0 <= from <= at,
        well_kept(c),
        c.old_lines.len() > 0,
        c.eof ==> mode == UpdateMode::PreserveLineEndings,
        chunk_replacements(lines, path, c, from, mode) is Ok,
        c.context is None ==> at == from,
        c.context matches Some(ctx) ==> sought(lines, seq![ctx], from, false, mode) == Some(at - 1),
    ensures
        ({
            let (reps, next) = chunk_replacements(lines, path, c, from, mode)->Ok_0;
            &&& next >= at
            &&& forall|m: int| 0 <= m < reps.len() ==> (#[trigger] reps[m]).start >= at
        }),
{
    lemma_sought_from(lines, c.old_lines, at, c.eof, mode);
    lemma_sought_from(lines, c.old_lines.drop_last(), at, c.eof, mode);
    let (old, new, i) = matched(lines, c, at, mode)->0;
    assert(i >= at);
    lemma_between_starts(c, 0, 0, 0, old.len() as int, new, i);
}

proof fn lemma_sought_from(
    lines: Seq<Seq<char>>,
    pat: Seq<Seq<char>>,
    start: int,
    eof: bool,
    mode: UpdateMode,
)
    requires
        0 <= start,
        eof ==> mode == UpdateMode::PreserveLineEndings,
    ensures
        sought(lines, pat, start, eof, mode) matches Some(p) ==> p >= start,
{
    if pat.len() > 0 {
        if eof {
            end_of_file_is_at_the_end(lines, pat, start, mode);
        } else {
            strictest_tier_decides(lines, pat, start, mode);
        }
    }
}

/// Where a change names a context line, the lines that it replaces lie strictly behind a
/// line of the file that matches that context: the first one from where the change is
/// looked for. Without such a line the change is refused.
pub proof fn change_lies_behind_its_context(
    lines: Seq<Seq<char>>,
    path: Seq<char>,
    c: ChunkView,
    ctx: Seq<char>,
    from: int,
    mode: UpdateMode,
)
    requires
        0 <= from,
        well_kept(c),
        c.context == Some(ctx),
        c.old_lines.len() > 0,
        c.eof ==> mode == UpdateMode::PreserveLineEndings,
    ensures
        sought(lines, seq![ctx], from, false, mode) is None ==> chunk_replacements(
            lines,
            path,
            c,
            from,
            mode,
        ) is Err,
        sought(lines, seq![ctx], from, false, mode) matches Some(j) ==> {
            &&& from <= j < lines.len()
            &&& exists|t: int| 0 <= t < 4 && #[trigger] match_at(lines, seq![ctx], j, t)
            &&& chunk_replacements(lines, path, c, from, mode) matches Ok((reps, next)) ==> {
                &&& next > j
                &&& forall|m: int| 0 <= m < reps.len() ==> (#[trigger] reps[m]).start > j
            }
        },
{
    strictest_tier_decides(lines, seq![ctx], from, mode);
    if let Some(j) = sought(lines, seq![ctx], from, false, mode) {
        let t = choose|t: int| 0 <= t < 4 && #[trigger] match_at(lines, seq![ctx], j, t);
        assert(match_at(lines, seq![ctx], j, t));
        if chunk_replacements(lines, path, c, from, mode) is Ok {
            lemma_placed(lines, path, c, from, j + 1, mode);
        }
    }
}

/// A context line does nothing but move the search: the change is placed as it would be
/// without one, looked for from the line behind its context. Lines that replace none go to
/// the same place.
pub proof fn context_only_moves_the_search(
    lines: Seq<Seq<char>>,
    path: Seq<char>,
    c: ChunkView,
    ctx: Seq<char>,
    from: int,
    mode: UpdateMode,
    j: int,
)
    requires
        c.context == Some(ctx),
        sought(lines, seq![ctx], from, false, mode) == Some(j),
    ensures
        chunk_replacements(lines, path, c, from, mode) == chunk_replacements(
            lines,
            path,
            ChunkView { context: None, ..c },
            j + 1,
            mode,
        ),
{
}

/// A change without a context replaces its old lines where they are found, and by its new
/// lines. Where they are not found with an empty line at their end, they are looked for
/// without it; where they are not found at all, the change is refused.
pub proof fn old_lines_are_replaced_where_found(
    lines: Seq<Seq<char>>,
    path: Seq<char>,
    c: ChunkView,
    from: int,
    mode: UpdateMode,
)
    requires
        c.context is None,
        c.old_lines.len() > 0,
    ensures
        ({
            let placed = chunk_replacements(lines, path, c, from, mode);
            let whole = sought(lines, c.old_lines, from, c.eof, mode);
            let short = sought(lines, c.old_lines.drop_last(), from, c.eof, mode);
            let n = c.old_lines.len() as int;
            &&& whole matches Some(i) ==> (placed matches Ok((reps, next)) && next == i + n && (mode
                == UpdateMode::NormalizeToLf ==> reps == seq![
                RepView { start: i, old_len: n, new_lines: c.new_lines },
            ]))
            &&& whole is None && c.old_lines.last().len() > 0 ==> placed is Err
            &&& whole is None && short is None ==> placed is Err
            &&& whole is None && c.old_lines.last().len() == 0 ==> (short matches Some(i) ==> (
            placed matches Ok((reps, next)) && next == i + n - 1 && (mode
                == UpdateMode::NormalizeToLf ==> reps.len() == 1 && reps[0].start == i
                && reps[0].old_len == n - 1 && (c.new_lines.len() > 0 && c.new_lines.last().len()
                == 0 ==> reps[0].new_lines == c.new_lines.drop_last()) && (c.new_lines.len() == 0
                || c.new_lines.last().len() > 0 ==> reps[0].new_lines == c.new_lines))))
        }),
{
}

/// Lines that replace none are put in behind the last line of the file.
pub proof fn added_lines_go_to_the_end(
    lines: Seq<Seq<char>>,
    path: Seq<char>,
    c: ChunkView,
    from: int,
    mode: UpdateMode,
)
    requires
        c.context is None,
        c.old_lines.len() == 0,
        mode == UpdateMode::PreserveLineEndings || (lines.len() > 0 ==> lines.last().len() > 0),
    ensures
        chunk_replacements(lines, path, c, from, mode) == Ok::<(Seq<RepView>, int), Seq<char>>(
            (
                seq![RepView { start: lines.len() as int, old_len: 0, new_lines: c.new_lines }],
                from,
            ),
        ),
{
}

/// The changes of a file are placed one behind the other: each is looked for from the line
/// behind the one before.
pub proof fn changes_follow_each_other(
    lines: Seq<Seq<char>>,
    path: Seq<char>,
    chunks: Seq<ChunkView>,
    n: int,
    mode: UpdateMode,
)
    requires
        0 <= n < chunks.len(),
    ensures
        replacements_upto(lines, path, chunks, 0, mode) == Ok::<(Seq<RepView>, int), Seq<char>>(
            (Seq::empty(), 0),
        ),
        replacements_upto(lines, path, chunks, n, mode) matches Err(e) ==> replacements_upto(
            lines,
            path,
            chunks,
            n + 1,
            mode,
        ) == Err::<(Seq<RepView>, int), Seq<char>>(e),
        replacements_upto(lines, path, chunks, n, mode) matches Ok((reps, from)) ==> {
            &&& chunk_replacements(lines, path, chunks[n], from, mode) matches Err(e)
                ==> replacements_upto(lines, path, chunks, n + 1, mode) == Err::<
                (Seq<RepView>, int),
                Seq<char>,
            >(e)
            &&& chunk_replacements(lines, path, chunks[n], from, mode) matches Ok((more, next))
                ==> replacements_upto(lines, path, chunks, n + 1, mode) == Ok::<
                (Seq<RepView>, int),
                Seq<char>,
            >((reps + more, next))
        },
{
}

/// Replacements are made in the order of the file, each of them once.
pub proof fn replacements_are_sorted(reps: Seq<RepView>)
    ensures
        by_start(reps).to_multiset() == reps.to_multiset(),
        forall|i: int, j: int|
            0 <= i < j < by_start(reps).len() ==> (#[trigger] by_start(reps)[i]).start <= (
            #[trigger] by_start(reps)[j]).start,
    decreases reps.len(),
{
    if reps.len() > 0 {
        let front = reps.drop_last();
        replacements_are_sorted(front);
        lemma_put(by_start(front), reps.last());
        assert(reps =~= front.push(reps.last()));
        front.to_multiset_ensures();
        by_start(front).to_multiset_ensures();
        assert(front.push(reps.last()).to_multiset() == front.to_multiset().insert(reps.last()));
    } else {
        assert(by_start(reps) =~= reps);
    }
}

proof fn lemma_put(sorted: Seq<RepView>, r: RepView)
    requires
        forall|i: int, j: int|
            0 <= i < j < sorted.len() ==> (#[trigger] sorted[i]).start <= (
            #[trigger] sorted[j]).start,
    ensures
        put_rep(sorted, r).to_multiset() == sorted.to_multiset().insert(r),
        put_rep(sorted, r).len() == sorted.len() + 1,
        forall|i: int, j: int|
            0 <= i < j < put_rep(sorted, r).len() ==> (#[trigger] put_rep(sorted, r)[i]).start <= (
            #[trigger] put_rep(sorted, r)[j]).start,
        forall|i: int|
            0 <= i < put_rep(sorted, r).len() ==> (#[trigger] put_rep(sorted, r)[i]).start
                <= r.start || (sorted.len() > 0 && put_rep(sorted, r)[i].start
                <= sorted.last().start),
    decreases sorted.len(),
{
    let out = put_rep(sorted, r);
    if sorted.len() > 0 && sorted.last().start > r.start {
        let front = sorted.drop_last();
        assert forall|i: int, j: int| 0 <= i < j < front.len() implies (#[trigger] front[i]).start <= (
        #[trigger] front[j]).start by {
            assert(sorted[i].start <= sorted[j].start);
        }
        lemma_put(front, r);
        let inner = put_rep(front, r);
        assert(sorted =~= front.push(sorted.last()));
        front.to_multiset_ensures();
        inner.to_multiset_ensures();
        assert(out.to_multiset() == inner.to_multiset().insert(sorted.last()));
        assert(sorted.to_multiset() == front.to_multiset().insert(sorted.last()));
        assert(out.to_multiset() =~= sorted.to_multiset().insert(r));
        assert forall|i: int| 0 <= i < inner.len() implies (#[trigger] inner[i]).start
            <= sorted.last().start by {
            if front.len() > 0 {
                assert(sorted[front.len() - 1].start <= sorted[sorted.len() - 1].start);
                assert(front.last() == sorted[front.len() - 1]);
            }
        }
        assert forall|i: int, j: int| 0 <= i < j < out.len() implies (#[trigger] out[i]).start <= (
        #[trigger] out[j]).start by {
            if j < inner.len() {
                assert(inner[i].start <= inner[j].start);
            } else {
                assert(out[i] == inner[i]);
            }
        }
    } else {
        sorted.to_multiset_ensures();
        assert forall|i: int, j: int| 0 <= i < j < out.len() implies (#[trigger] out[i]).start <= (
        #[trigger] out[j]).start by {
            if j < sorted.len() {
                assert(sorted[i].start <= sorted[j].start);
            } else {
                assert(out[i] == sorted[i]);
                if i < sorted.len() - 1 {
                    assert(sorted[i].start <= sorted[sorted.len() - 1].start);
                }
            }
        }
        assert forall|i: int| 0 <= i < out.len() implies (#[trigger] out[i]).start <= r.start by {
            if i < sorted.len() - 1 {
                assert(sorted[i].start <= sorted[sorted.len() - 1].start);
            }
        }
    }
}

/// Replacements that lie one behind the other put their new lines in the place of the old
/// ones and leave every other line as it was.
pub proof fn only_replaced_lines_change(lines: Seq<Seq<char>>, reps: Seq<RepView>, from: int)
    requires
        0 <= from <= lines.len(),
        reps.len() > 0 ==> from <= reps[0].start && 0 <= reps[0].old_len && reps[0].start
            + reps[0].old_len <= lines.len(),
    ensures
        reps.len() == 0 ==> rebuilt(lines, reps, from) == lines.skip(from),
        reps.len() > 0 ==> rebuilt(lines, reps, from) == lines.subrange(from, reps[0].start)
            + reps[0].new_lines + rebuilt(lines, reps.skip(1), reps[0].start + reps[0].old_len),
{
}

/// A patch of one change to a file whose line endings are made one: the lines it names are
/// replaced where they are found, behind its context where it has one, and no others.
pub proof fn one_change_replaces_its_lines(
    original: Seq<char>,
    path: Seq<char>,
    c: ChunkView,
    from: int,
    i: int,
)
    requires
        c.old_lines.len() > 0,
        0 <= from,
        ({
            let lines = counted_lines(lf_view(original));
            let mode = UpdateMode::NormalizeToLf;
            &&& c.context is None ==> from == 0
            &&& c.context matches Some(ctx) ==> sought(lines, seq![ctx], 0, false, mode) == Some(
                from - 1,
            )
            &&& sought(lines, c.old_lines, from, c.eof, mode) == Some(i)
        }),
    ensures
        ({
            let lines = counted_lines(lf_view(original));
            updated_contents(original, path, seq![c], UpdateMode::NormalizeToLf) == Ok::<
                Seq<char>,
                Seq<char>,
            >(as_file(lines.take(i) + c.new_lines + lines.skip(i + c.old_lines.len())))
        }),
{
    let mode = UpdateMode::NormalizeToLf;
    let lines = counted_lines(lf_view(original));
    let rep = RepView { start: i, old_len: c.old_lines.len() as int, new_lines: c.new_lines };
    let chunks = seq![c];
    reveal_with_fuel(replacements_upto, 2);
    assert(chunks[0] == c);
    assert(Seq::<RepView>::empty() + seq![rep] =~= seq![rep]);
    reveal_with_fuel(by_start, 2);
    assert(seq![rep].drop_last() =~= Seq::<RepView>::empty());
    assert(by_start(seq![rep]) =~= seq![rep]);
    if c.eof {
        end_of_file_is_at_the_end(lines, c.old_lines, from, mode);
        lemma_tiered(lines, c.old_lines, lines.len() - c.old_lines.len(), 0);
    } else {
        strictest_tier_decides(lines, c.old_lines, from, mode);
        let t = choose|t: int| 0 <= t < 4 && #[trigger] match_at(lines, c.old_lines, i, t);
        assert(match_at(lines, c.old_lines, i, t));
    }
    reveal_with_fuel(rebuilt, 2);
    assert(seq![rep].skip(1) =~= Seq::<RepView>::empty());
    assert(lines.subrange(0, i) =~= lines.take(i));
    assert(rebuilt(lines, seq![rep], 0) =~= lines.take(i) + c.new_lines + lines.skip(
        i + c.old_lines.len(),
    ));
}

/// A patch of one change to a file that keeps its line endings: the lines that it names
/// behind its context line are rewritten, and the rest of the file stays byte for byte.
pub proof fn change_behind_a_context_rewrites_its_lines(
    original: Seq<char>,
    path: Seq<char>,
    c: ChunkView,
    ctx: Seq<char>,
    j: int,
    i: int,
)
    requires
        well_kept(c),
        c.old_lines.len() > 0,
        c.context == Some(ctx),
        ({
            let texts = line_texts(raw_lines_from(original, 0));
            let mode = UpdateMode::PreserveLineEndings;
            &&& sought(texts, seq![ctx], 0, false, mode) == Some(j)
            &&& sought(texts, c.old_lines, j + 1, c.eof, mode) == Some(i)
        }),
    ensures
        ({
            let raw = raw_lines_from(original, 0);
            let eol = preferred_ending(raw);
            updated_contents(original, path, seq![c], UpdateMode::PreserveLineEndings) == Ok::<
                Seq<char>,
                Seq<char>,
            >(
                glued(
                    raw.take(i) + rewritten(raw, c, i, eol) + raw.skip(i + c.old_lines.len()),
                    eol,
                ),
            )
        }),
{
    one_change_rewrites_its_lines(original, path, c, j + 1, i);
}

/// A line is its text and its line break; the break is a newline, a carriage return, both or
/// none, and no text ends in one that its line has.
pub proof fn line_is_text_and_break(l: Seq<char>)
    ensures
        line_text(l) + line_ending(l) == l,
        line_ending(l).len() == 0 || line_ending(l) == seq!['\n'] || line_ending(l) == seq!['\r']
            || line_ending(l) == seq!['\r', '\n'],
        line_ending(l).len() == 0 <==> !breaks_off(l),
        l.len() >= 2 && l[l.len() - 2] == '\r' && l.last() == '\n' ==> line_ending(l).len() == 2,
{
    assert(line_text(l) + line_ending(l) =~= l);
    let n = l.len() as int;
    if n >= 2 && l[n - 2] == '\r' && l.last() == '\n' {
        assert(line_ending(l) =~= seq!['\r', '\n']);
    } else if breaks_off(l) {
        assert(line_ending(l) =~= seq![l.last()]);
    }
}

/// The line break of a file is that of its first line; a newline where that has none.
pub proof fn first_line_gives_the_break(lines: Seq<Seq<char>>)
    ensures
        lines.len() > 0 && breaks_off(lines[0]) ==> preferred_ending(lines) == line_ending(lines[0]),
        lines.len() == 0 || !breaks_off(lines[0]) ==> preferred_ending(lines) == seq!['\n'],
{
    if lines.len() > 0 {
        line_is_text_and_break(lines[0]);
    }
}

/// The lines of a file make up the file, byte for byte, and each but the last ends in a line
/// break.
pub proof fn lines_make_up_the_file(s: Seq<char>, p: int, eol: Seq<char>)
    requires
        0 <= p <= s.len(),
    ensures
        glued(raw_lines_from(s, p), eol) == s.skip(p),
        closed_all(raw_lines_from(s, p), eol) == closed_off(s.skip(p), eol),
        forall|i: int|
            0 <= i < raw_lines_from(s, p).len() - 1 ==> breaks_off(
                #[trigger] raw_lines_from(s, p)[i],
            ),
    decreases s.len() - p,
{
    let all = raw_lines_from(s, p);
    if p < s.len() {
        lemma_next_line_moves(s, p);
        let q = next_line(s, p);
        let first = s.subrange(p, q);
        lines_make_up_the_file(s, q, eol);
        let rest = raw_lines_from(s, q);
        assert(all =~= seq![first] + rest);
        lemma_break(s, p);
        if q == s.len() {
            assert(rest =~= Seq::<Seq<char>>::empty());
            assert(all.drop_last() =~= Seq::<Seq<char>>::empty());
            assert(closed_all(all.drop_last(), eol) =~= Seq::<char>::empty());
            assert(first =~= s.skip(p));
            assert(glued(all, eol) =~= s.skip(p));
            assert(closed_all(all, eol) =~= closed_off(first, eol));
        } else {
            assert(rest.len() > 0);
            lemma_closed_head(first, rest, eol);
            lemma_closed_head(first, rest.drop_last(), eol);
            assert(all.drop_last() =~= seq![first] + rest.drop_last());
            assert(closed_off(first, eol) == first);
            assert(glued(all, eol) =~= first + glued(rest, eol));
            assert(first + s.skip(q) =~= s.skip(p));
            assert(first + closed_off(s.skip(q), eol) =~= closed_off(s.skip(p), eol));
            assert forall|i: int| 0 <= i < all.len() - 1 implies breaks_off(#[trigger] all[i]) by {
                if i > 0 {
                    assert(all[i] == rest[i - 1]);
                }
            }
        }
    } else {
        assert(s.skip(p) =~= Seq::<char>::empty());
    }
}

proof fn lemma_break(s: Seq<char>, p: int)
    requires
        0 <= p < s.len(),
    ensures
        next_line(s, p) < s.len() ==> breaks_off(s.subrange(p, next_line(s, p))),
        p < next_line(s, p) <= s.len(),
    decreases s.len() - p,
{
    lemma_next_line_moves(s, p);
    if !(s[p] == '\r' || s[p] == '\n') && p + 1 < s.len() {
        lemma_break(s, p + 1);
        let q = next_line(s, p);
        if q < s.len() {
            assert(s.subrange(p, q).last() == s.subrange(p + 1, q).last());
        }
    }
}

proof fn lemma_closed_head(first: Seq<char>, rest: Seq<Seq<char>>, eol: Seq<char>)
    ensures
        closed_all(seq![first] + rest, eol) == closed_off(first, eol) + closed_all(rest, eol),
    decreases rest.len(),
{
    let all = seq![first] + rest;
    if rest.len() == 0 {
        assert(all.drop_last() =~= Seq::<Seq<char>>::empty());
        assert(closed_all(all.drop_last(), eol) =~= Seq::<char>::empty());
        assert(closed_all(all, eol) =~= closed_off(first, eol) + closed_all(rest, eol));
    } else {
        lemma_closed_head(first, rest.drop_last(), eol);
        assert(all.drop_last() =~= seq![first] + rest.drop_last());
        assert(closed_all(all, eol) =~= closed_off(first, eol) + closed_all(rest, eol));
    }
}

/// A file whose line endings are made one ends in a newline, and its lines are those it was
/// made of.
pub proof fn file_of_lines_ends_in_a_newline(lines: Seq<Seq<char>>)
    requires
        lines.len() > 0,
        lines.last().len() > 0,
        forall|i: int| 0 <= i < lines.len() ==> !(#[trigger] lines[i]).contains('\n'),
    ensures
        as_file(lines) == join(lines, nl()) + nl(),
        counted_lines(as_file(lines)) == lines,
{
    let all = lines.push(Seq::<char>::empty());
    assert forall|i: int| 0 <= i < all.len() implies !(#[trigger] all[i]).contains('\n') by {
        if i < lines.len() {
            assert(all[i] == lines[i]);
        }
    }
    crate::laws::text::splitting_undoes_joining(all);
    assert(all.drop_last() =~= lines);
    assert(join(lines, nl()) + nl() + Seq::<char>::empty() =~= join(lines, nl()) + nl());
    assert(counted_lines(as_file(lines)) =~= lines);
}

/// Lines put behind a file begin lines of their own: all but the last line are closed off, and
/// the last is as it is.
pub proof fn last_line_may_stay_open(lines: Seq<Seq<char>>, l: Seq<char>, eol: Seq<char>)
    ensures
        glued(lines.push(l), eol) == closed_all(lines, eol) + l,
        closed_all(lines.push(l), eol) == closed_all(lines, eol) + closed_off(l, eol),
        glued(Seq::empty(), eol).len() == 0,
        closed_all(Seq::empty(), eol).len() == 0,
{
    assert(lines.push(l).drop_last() =~= lines);
}

/// In a file whose line endings are made one, added lines go before an empty line at its end.
pub proof fn added_lines_go_before_an_empty_end(
    lines: Seq<Seq<char>>,
    path: Seq<char>,
    c: ChunkView,
    from: int,
)
    requires
        c.context is None,
        c.old_lines.len() == 0,
        lines.len() > 0,
        lines.last().len() == 0,
    ensures
        chunk_replacements(lines, path, c, from, UpdateMode::NormalizeToLf) == Ok::<
            (Seq<RepView>, int),
            Seq<char>,
        >((seq![RepView { start: lines.len() - 1, old_len: 0, new_lines: c.new_lines }], from)),
{
}

/// Each line of a file without its line break is what the changes of a patch are matched
/// against, and a line that is put in gets the break of the file.
pub proof fn texts_are_matched_and_breaks_are_added(
    lines: Seq<Seq<char>>,
    reps: Seq<RepView>,
    eol: Seq<char>,
    i: int,
    k: int,
)
    ensures
        line_texts(lines).len() == lines.len(),
        0 <= i < lines.len() ==> line_texts(lines)[i] == line_text(lines[i]),
        ended_reps(reps, eol).len() == reps.len(),
        0 <= i < reps.len() ==> ended_reps(reps, eol)[i].start == reps[i].start && ended_reps(
            reps,
            eol,
        )[i].old_len == reps[i].old_len && ended_reps(reps, eol)[i].new_lines.len()
            == reps[i].new_lines.len(),
        0 <= i < reps.len() && 0 <= k < reps[i].new_lines.len() ==> ended_reps(
            reps,
            eol,
        )[i].new_lines[k] == reps[i].new_lines[k] + eol,
{
}

/// A file is updated as a whole or not at all: where one of its changes cannot be placed, it is
/// not updated.
pub proof fn update_is_all_or_nothing(
    original: Seq<char>,
    path: Seq<char>,
    chunks: Seq<ChunkView>,
    mode: UpdateMode,
)
    ensures
        ({
            let lines = if mode == UpdateMode::NormalizeToLf {
                counted_lines(lf_view(original))
            } else {
                line_texts(raw_lines_from(original, 0))
            };
            let placed = replacements_upto(lines, path, chunks, chunks.len() as int, mode);
            &&& placed matches Err(e) ==> updated_contents(original, path, chunks, mode) == Err::<
                Seq<char>,
                Seq<char>,
            >(e)
            &&& placed is Ok ==> updated_contents(original, path, chunks, mode) is Ok
            &&& placed matches Ok((reps, _)) ==> {
                &&& mode == UpdateMode::NormalizeToLf ==> updated_contents(
                    original,
                    path,
                    chunks,
                    mode,
                ) == Ok::<Seq<char>, Seq<char>>(as_file(rebuilt(lines, by_start(reps), 0)))
                &&& mode == UpdateMode::PreserveLineEndings ==> ({
                    let raw = raw_lines_from(original, 0);
                    let eol = preferred_ending(raw);
                    updated_contents(original, path, chunks, mode) == Ok::<Seq<char>, Seq<char>>(
                        glued(rebuilt(raw, ended_reps(by_start(reps), eol), 0), eol),
                    )
                })
            }
        }),
{
}

/// Replacements that begin at the same line are made in the order of their changes.
pub proof fn equal_starts_keep_their_order(reps: Seq<RepView>, a: RepView, b: RepView)
    requires
        a.start == b.start,
        forall|i: int| 0 <= i < reps.len() ==> (#[trigger] reps[i]).start <= a.start,
    ensures
        by_start(reps.push(a).push(b)) == by_start(reps).push(a).push(b),
{
    let r1 = reps.push(a);
    let r2 = r1.push(b);
    assert(r1.drop_last() =~= reps);
    assert(r2.drop_last() =~= r1);
    replacements_are_sorted(reps);
    lemma_last_start(reps, a.start);
    assert(by_start(r1) == put_rep(by_start(reps), a));
    assert(by_start(r1) =~= by_start(reps).push(a));
    assert(by_start(r2) == put_rep(by_start(r1), b));
}

proof fn lemma_last_start(reps: Seq<RepView>, n: int)
    requires
        forall|i: int| 0 <= i < reps.len() ==> (#[trigger] reps[i]).start <= n,
    ensures
        by_start(reps).len() == reps.len(),
        by_start(reps).len() > 0 ==> by_start(reps).last().start <= n,
    decreases reps.len(),
{
    if reps.len() > 0 {
        let front = reps.drop_last();
        assert forall|i: int| 0 <= i < front.len() implies (#[trigger] front[i]).start <= n by {
            assert(front[i] == reps[i]);
        }
        lemma_last_start(front, n);
        replacements_are_sorted(front);
        lemma_put(by_start(front), reps.last());
        assert(reps[reps.len() - 1].start <= n);
        let out = by_start(reps);
        assert(out[out.len() - 1].start <= n);
    }
}

/// A line of a file ends right behind its first line break, whichever kind that is; without
/// one it goes to the end of the file.
pub proof fn lines_end_behind_their_break(s: Seq<char>, p: int)
    requires
        0 <= p < s.len(),
    ensures
        ({
            let q = next_line(s, p);
            let text = line_text(s.subrange(p, q));
            &&& p < q <= s.len()
            &&& forall|i: int|
                0 <= i < text.len() ==> #[trigger] text[i] != '\n' && text[i] != '\r'
            &&& q < s.len() ==> s[q - 1] == '\n' || (s[q - 1] == '\r' && s[q] != '\n')
        }),
    decreases s.len() - p,
{
    lemma_next_line_moves(s, p);
    let q = next_line(s, p);
    let line = s.subrange(p, q);
    if s[p] == '\r' || s[p] == '\n' {
        assert(line[0] == s[p]);
        if q == p + 2 {
            assert(line[1] == '\n');
        }
        assert(line_text(line).len() == 0);
    } else if p + 1 < s.len() {
        lines_end_behind_their_break(s, p + 1);
        let rest = s.subrange(p + 1, q);
        assert(line =~= seq![s[p]] + rest);
        assert(line_text(line) =~= seq![s[p]] + line_text(rest)) by {
            if rest.len() >= 2 {
                assert(rest[rest.len() - 2] == line[line.len() - 2]);
            } else {
                assert(line[line.len() - 2] == s[p]);
            }
            assert(rest.last() == line.last());
        }
        let text = line_text(line);
        assert forall|i: int| 0 <= i < text.len() implies #[trigger] text[i] != '\n' && text[i]
            != '\r' by {
            if i > 0 {
                assert(text[i] == line_text(rest)[i - 1]);
            }
        }
    } else {
        assert(next_line(s, p + 1) == s.len());
        assert(line =~= seq![s[p]]);
        assert(line_text(line) =~= line);
    }
}


/// A change that must end a file whose line endings are made one lies at the end of the file,
/// wherever its context is found; it lies behind the context as soon as the old lines, counted
/// from the end of the file, do.
pub proof fn change_that_ends_the_file_lies_at_its_end(
    lines: Seq<Seq<char>>,
    path: Seq<char>,
    c: ChunkView,
    ctx: Seq<char>,
    from: int,
    j: int,
)
    requires
        0 <= from,
        c.context == Some(ctx),
        c.eof,
        c.old_lines.len() > 0,
        sought(lines, seq![ctx], from, false, UpdateMode::NormalizeToLf) == Some(j),
        chunk_replacements(lines, path, c, from, UpdateMode::NormalizeToLf) is Ok,
    ensures
        ({
            let (reps, next) = chunk_replacements(
                lines,
                path,
                c,
                from,
                UpdateMode::NormalizeToLf,
            )->Ok_0;
            &&& reps.len() == 1
            &&& next == lines.len() || (c.old_lines.len() == 1 && next == j + 1)
            &&& lines.len() - c.old_lines.len() > j ==> reps[0].start > j
        }),
{
    let mode = UpdateMode::NormalizeToLf;
    strictest_tier_decides(lines, seq![ctx], from, mode);
    end_of_file_is_at_the_end(lines, c.old_lines, j + 1, mode);
    if c.old_lines.len() > 1 {
        end_of_file_is_at_the_end(lines, c.old_lines.drop_last(), j + 1, mode);
    }
}

} // verus!
