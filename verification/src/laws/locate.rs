//! What holds of every search for the place of a hunk.

use vstd::prelude::*;

use crate::edit::candidate::Scored;
use crate::edit::exact::score_is_at_most_one;
use crate::edit::hunk::Hunk;
use crate::edit::indent::stripped;
use crate::edit::locate::{anchor_place, insert_place, replace_place, ErrorView, LocatedView};
use crate::edit::matching::{
    context_at, drop_empty_tail, exact_at, exact_hits, exact_hits_are_all_matches, in_context,
    lemma_exact_hits_fit, pattern, shape_at, shape_below, shape_hits,
};
use crate::edit::place::{
    every_place, hint_hi, hint_lo, hint_of, hint_place, hinted_text, hunk_places, in_window,
    inline_place, lines_of, window_holds,
};
use crate::edit::score::{
    all_scores, largest, leads, rank, ranking_is_the_best_two, score_at, scored_below,
    scored_candidates, scored_sizes, scored_windows, smallest, top, verdict,
};
use crate::edit::transaction::final_places;
use crate::edit::view::start_of;
use crate::lines::split_nl;
use crate::outside::{regex_error, regex_found};
use crate::search::occurs;

verus! {

/// The lines of a pattern are those of its text without the empty ones at the end.
pub proof fn pattern_drops_empty_lines_at_the_end(s: Seq<char>)
    ensures
        pattern(s).is_prefix_of(split_nl(s)),
        pattern(s).len() > 0 ==> pattern(s).last().len() > 0,
        forall|i: int|
            pattern(s).len() <= i < split_nl(s).len() ==> (#[trigger] split_nl(s)[i]).len() == 0,
{
    lemma_drop_empty(split_nl(s));
}

proof fn lemma_drop_empty(lines: Seq<Seq<char>>)
    ensures
        drop_empty_tail(lines).is_prefix_of(lines),
        drop_empty_tail(lines).len() > 0 ==> drop_empty_tail(lines).last().len() > 0,
        forall|i: int|
            drop_empty_tail(lines).len() <= i < lines.len() ==> (#[trigger] lines[i]).len() == 0,
    decreases lines.len(),
{
    if lines.len() > 0 && lines.last().len() == 0 {
        let front = lines.drop_last();
        lemma_drop_empty(front);
        let k = drop_empty_tail(front).len() as int;
        assert(lines.take(k) =~= front.take(k));
        assert forall|i: int| k <= i < lines.len() implies (#[trigger] lines[i]).len() == 0 by {
            if i < front.len() {
                assert(front[i] == lines[i]);
            }
        }
    } else {
        assert(lines.take(lines.len() as int) =~= lines);
    }
}

/// The only line at which something stands.
pub open spec fn only_at(lines: Seq<Seq<char>>, pat: Seq<Seq<char>>, s: int) -> bool {
    exact_at(lines, pat, s) && forall|t: int| #[trigger] exact_at(lines, pat, t) ==> t == s
}

/// Something stands nowhere, line by line.
pub open spec fn nowhere(lines: Seq<Seq<char>>, pat: Seq<Seq<char>>) -> bool {
    forall|t: int| !#[trigger] exact_at(lines, pat, t)
}

proof fn lemma_hits(lines: Seq<Seq<char>>, pat: Seq<Seq<char>>, s: int, t: int)
    requires
        pat.len() > 0,
        lines.len() <= usize::MAX,
    ensures
        only_at(lines, pat, s) ==> exact_hits(lines, pat) == seq![s as usize],
        nowhere(lines, pat) ==> exact_hits(lines, pat).len() == 0,
        s < t && exact_at(lines, pat, s) && exact_at(lines, pat, t) ==> exact_hits(lines, pat).len()
            > 1,
{
    exact_hits_are_all_matches(lines, pat);
    let hits = exact_hits(lines, pat);
    if only_at(lines, pat, s) {
        assert(hits.contains(s as usize));
        let k = choose|k: int| 0 <= k < hits.len() && hits[k] == s as usize;
        assert forall|i: int| 0 <= i < hits.len() implies hits[i] == s by {
            lemma_exact_hits_fit(lines, pat, i);
        }
        if hits.len() > 1 {
            assert(hits[0] < hits[1]);
        }
        assert(hits =~= seq![s as usize]);
    }
    if nowhere(lines, pat) && hits.len() > 0 {
        lemma_exact_hits_fit(lines, pat, 0);
    }
    if s < t && exact_at(lines, pat, s) && exact_at(lines, pat, t) {
        assert(hits.contains(s as usize) && hits.contains(t as usize));
        let a = choose|a: int| 0 <= a < hits.len() && hits[a] == s as usize;
        let b = choose|b: int| 0 <= b < hits.len() && hits[b] == t as usize;
        assert(a != b);
    }
}

/// An anchor that stands in the file exactly once, line by line, is placed there; one that
/// stands there twice is ambiguous.
pub proof fn anchor_goes_to_its_only_exact_match(text: Seq<char>, anchor: Seq<char>, s: int, t: int)
    requires
        pattern(anchor).len() > 0,
        split_nl(text).len() <= usize::MAX,
    ensures
        only_at(split_nl(text), pattern(anchor), s) ==> (anchor_place(text, anchor) matches Ok(l)
            && l.start_line == s && l.win_lines == pattern(anchor).len() && l.tier == 1
            && l.start_char == start_of(text, s) && l.end_char == start_of(
            text,
            s + pattern(anchor).len(),
        )),
        s < t && exact_at(split_nl(text), pattern(anchor), s) && exact_at(
            split_nl(text),
            pattern(anchor),
            t,
        ) ==> (anchor_place(text, anchor) matches Err(e) && e is Ambiguous),
{
    lemma_hits(split_nl(text), pattern(anchor), s, t);
}

/// The same of the text of a replacement. Where it stands twice, only its context may tell
/// the two apart: the one place whose surroundings are the context is taken, and without
/// such a place, or with two, it is ambiguous.
pub proof fn replacement_goes_to_its_only_exact_match(
    text: Seq<char>,
    old: Seq<char>,
    before: Seq<char>,
    after: Seq<char>,
    s: int,
    t: int,
)
    requires
        pattern(old).len() > 0,
        split_nl(text).len() <= usize::MAX,
    ensures
        ({
            let lines = split_nl(text);
            let pat = pattern(old);
            let n = pat.len() as int;
            let placed = replace_place(text, old, before, after);
            let fits = |x: int|
                exact_at(lines, pat, x) && context_at(
                    lines,
                    x,
                    n,
                    pattern(before),
                    pattern(after),
                );
            &&& only_at(lines, pat, s) ==> (placed matches Ok(l) && l.start_line == s && l.win_lines
                == n && l.tier == 1 && l.start_char == start_of(text, s) && l.end_char == start_of(
                text,
                s + n,
            ))
            &&& s != t && exact_at(lines, pat, s) && exact_at(lines, pat, t) ==> {
                &&& fits(s) && (forall|x: int| #[trigger] exact_at(lines, pat, x) && fits(x) ==> x
                    == s) ==> (placed matches Ok(l) && l.start_line == s && l.win_lines == n
                    && l.tier == 1)
                &&& (forall|x: int| #[trigger] exact_at(lines, pat, x) ==> !fits(x)) ==> (
                placed matches Err(e) && e is Ambiguous)
                &&& fits(s) && fits(t) ==> (placed matches Err(e) && e is Ambiguous)
            }
        }),
{
    let lines = split_nl(text);
    let pat = pattern(old);
    let n = pat.len() as int;
    let b = pattern(before);
    let a = pattern(after);
    let hits = exact_hits(lines, pat);
    lemma_hits(lines, pat, s, t);
    lemma_hits(lines, pat, t, s);
    exact_hits_are_all_matches(lines, pat);
    let near = in_context(lines, hits, n, b, a);
    lemma_in_context(lines, hits, n, b, a);
    assert forall|i: int| 0 <= i < near.len() implies exact_at(lines, pat, #[trigger] near[i] as int)
        && context_at(lines, near[i] as int, n, b, a) by {
        assert(near.contains(near[i]));
        assert(hits.contains(near[i]));
        let k = choose|k: int| 0 <= k < hits.len() && hits[k] == near[i];
        lemma_exact_hits_fit(lines, pat, k);
    }
    if exact_at(lines, pat, s) && context_at(lines, s, n, b, a) {
        assert(hits.contains(s as usize));
        assert(near.contains(s as usize));
        let k = choose|k: int| 0 <= k < near.len() && near[k] == s as usize;
        if forall|x: int| #[trigger]
            exact_at(lines, pat, x) && context_at(lines, x, n, b, a) ==> x == s {
            assert forall|i: int| 0 <= i < near.len() implies near[i] == s by {
                assert(exact_at(lines, pat, near[i] as int));
            }
            if near.len() > 1 {
                assert(near[0] < near[1]);
            }
            assert(near.len() == 1);
        }
        if s != t && exact_at(lines, pat, t) && context_at(lines, t, n, b, a) {
            assert(hits.contains(t as usize));
            assert(near.contains(t as usize));
            let j = choose|j: int| 0 <= j < near.len() && near[j] == t as usize;
            assert(k != j);
        }
    }
    if forall|x: int| #[trigger]
        exact_at(lines, pat, x) ==> !(exact_at(lines, pat, x) && context_at(lines, x, n, b, a)) {
        if near.len() > 0 {
            assert(exact_at(lines, pat, near[0] as int));
        }
    }
}

proof fn lemma_in_context(
    lines: Seq<Seq<char>>,
    cands: Seq<usize>,
    win: int,
    before: Seq<Seq<char>>,
    after: Seq<Seq<char>>,
)
    requires
        forall|i: int, j: int| 0 <= i < j < cands.len() ==> cands[i] < cands[j],
    ensures
        ({
            let near = in_context(lines, cands, win, before, after);
            &&& forall|x: usize| #[trigger]
                near.contains(x) <==> cands.contains(x) && context_at(
                    lines,
                    x as int,
                    win,
                    before,
                    after,
                )
            &&& forall|i: int, j: int| 0 <= i < j < near.len() ==> near[i] < near[j]
        }),
    decreases cands.len(),
{
    let near = in_context(lines, cands, win, before, after);
    if cands.len() > 0 {
        let front = cands.drop_last();
        assert forall|i: int, j: int| 0 <= i < j < front.len() implies front[i] < front[j] by {
            assert(cands[i] < cands[j]);
        }
        lemma_in_context(lines, front, win, before, after);
        let rest = in_context(lines, front, win, before, after);
        let last = cands.last();
        let fits = context_at(lines, last as int, win, before, after);
        assert forall|x: usize| #[trigger] near.contains(x) <==> cands.contains(x) && context_at(
            lines,
            x as int,
            win,
            before,
            after,
        ) by {
            if cands.contains(x) && x != last {
                let k = choose|k: int| 0 <= k < cands.len() && cands[k] == x;
                assert(front[k] == x);
                assert(front.contains(x));
                if context_at(lines, x as int, win, before, after) {
                    assert(rest.contains(x));
                    let j = choose|j: int| 0 <= j < rest.len() && rest[j] == x;
                    assert(near[j] == x);
                }
            }
            if x == last {
                assert(cands[cands.len() - 1] == x);
                if fits {
                    assert(near[near.len() - 1] == x);
                }
            }
            if near.contains(x) {
                let j = choose|j: int| 0 <= j < near.len() && near[j] == x;
                if j < rest.len() {
                    assert(rest[j] == x);
                    assert(rest.contains(x));
                    let k = choose|k: int| 0 <= k < front.len() && front[k] == x;
                    assert(cands[k] == x);
                }
            }
        }
        assert forall|i: int, j: int| 0 <= i < j < near.len() implies near[i] < near[j] by {
            if j < rest.len() {
                assert(rest[i] < rest[j]);
            } else {
                assert(near[i] == rest[i]);
                assert(rest.contains(rest[i]));
                let k = choose|k: int| 0 <= k < front.len() && front[k] == rest[i];
                assert(cands[k] < cands[cands.len() - 1]);
            }
        }
    }
}

proof fn lemma_shapes(lines: Seq<Seq<char>>, shape: Seq<Seq<char>>, n: int)
    requires
        0 <= n <= usize::MAX,
    ensures
        forall|s: int|
            0 <= s < n ==> (#[trigger] shape_at(lines, shape, s) <==> shape_below(
                lines,
                shape,
                n,
            ).contains(s as usize)),
        forall|i: int|
            0 <= i < shape_below(lines, shape, n).len() ==> (#[trigger] shape_below(
                lines,
                shape,
                n,
            )[i]) < n && shape_at(lines, shape, shape_below(lines, shape, n)[i] as int),
        forall|i: int, j: int|
            0 <= i < j < shape_below(lines, shape, n).len() ==> shape_below(lines, shape, n)[i]
                < shape_below(lines, shape, n)[j],
    decreases n,
{
    if n > 0 {
        lemma_shapes(lines, shape, n - 1);
        let rest = shape_below(lines, shape, n - 1);
        let all = shape_below(lines, shape, n);
        assert forall|s: int| 0 <= s < n implies (#[trigger] shape_at(lines, shape, s)
            <==> all.contains(s as usize)) by {
            if shape_at(lines, shape, s) {
                if s < n - 1 {
                    assert(rest.contains(s as usize));
                    let k = choose|k: int| 0 <= k < rest.len() && rest[k] == s as usize;
                    assert(all[k] == s as usize);
                } else {
                    assert(all[all.len() - 1] == s as usize);
                }
            } else if all.contains(s as usize) {
                let k = choose|k: int| 0 <= k < all.len() && all[k] == s as usize;
                if k < rest.len() {
                    assert(rest[k] == s as usize);
                }
            }
        }
        assert forall|i: int| 0 <= i < all.len() implies (#[trigger] all[i]) < n && shape_at(
            lines,
            shape,
            all[i] as int,
        ) by {
            if i < rest.len() {
                assert(rest[i] == all[i]);
            }
        }
        assert forall|i: int, j: int| 0 <= i < j < all.len() implies all[i] < all[j] by {
            assert(rest[i] == all[i]);
            if j < rest.len() {
                assert(rest[j] == all[j]);
            }
        }
    }
}

/// Where the text stands nowhere line by line, but exactly one window of the file has its
/// shape once both are without their common indent, it is placed there; with two such
/// windows an anchor is ambiguous.
pub proof fn shape_decides_where_nothing_is_exact(
    text: Seq<char>,
    old: Seq<char>,
    before: Seq<char>,
    after: Seq<char>,
    s: int,
    t: int,
)
    requires
        pattern(old).len() > 0,
        split_nl(text).len() <= usize::MAX,
        nowhere(split_nl(text), pattern(old)),
    ensures
        ({
            let lines = split_nl(text);
            let pat = pattern(old);
            let n = pat.len() as int;
            let alike = |x: int|
                0 <= x && x + n <= lines.len() && stripped(lines.subrange(x, x + n)) == stripped(pat);
            &&& alike(s) && (forall|x: int| 0 <= x < lines.len() && #[trigger] alike(x) ==> x == s)
                ==> {
                &&& anchor_place(text, old) matches Ok(l) && l.start_line == s && l.win_lines == n
                    && l.tier == 2 && l.start_char == start_of(text, s) && l.end_char == start_of(
                    text,
                    s + n,
                )
                &&& replace_place(text, old, before, after) matches Ok(l) && l.start_line == s
                    && l.win_lines == n && l.tier == 2
            }
            &&& s < t && alike(s) && alike(t) ==> (anchor_place(text, old) matches Err(e)
                && e is Ambiguous)
        }),
{
    let lines = split_nl(text);
    let pat = pattern(old);
    let n = pat.len() as int;
    lemma_hits(lines, pat, s, t);
    let shape = stripped(pat);
    lemma_shapes(lines, shape, lines.len() as int);
    let hits = shape_hits(lines, pat);
    let alike = |x: int|
        0 <= x && x + n <= lines.len() && stripped(lines.subrange(x, x + n)) == stripped(pat);
    if alike(s) {
        assert(shape_at(lines, shape, s));
        assert(hits.contains(s as usize));
        let k = choose|k: int| 0 <= k < hits.len() && hits[k] == s as usize;
        if forall|x: int| 0 <= x < lines.len() && #[trigger] alike(x) ==> x == s {
            assert forall|i: int| 0 <= i < hits.len() implies hits[i] == s by {
                assert(shape_at(lines, shape, hits[i] as int));
                assert(alike(hits[i] as int));
            }
            if hits.len() > 1 {
                assert(hits[0] < hits[1]);
            }
            assert(hits =~= seq![s as usize]);
        }
        if s < t && alike(t) {
            assert(shape_at(lines, shape, t));
            assert(hits.contains(t as usize));
            let j = choose|j: int| 0 <= j < hits.len() && hits[j] == t as usize;
            assert(k != j);
        }
    }
}

/// A replacement of every occurrence has one place for each line at which its text stands,
/// from the first to the last, and is refused where there is none.
pub proof fn every_occurrence_has_its_place(text: Seq<char>, old: Seq<char>)
    requires
        pattern(old).len() > 0,
        split_nl(text).len() <= usize::MAX,
    ensures
        nowhere(split_nl(text), pattern(old)) ==> (every_place(text, old) matches Err(e)
            && e is NoMatch),
        every_place(text, old) is Err ==> nowhere(split_nl(text), pattern(old)),
        every_place(text, old) matches Ok(locs) ==> {
            &&& forall|i: int|
                0 <= i < locs.len() ==> exact_at(
                    split_nl(text),
                    pattern(old),
                    (#[trigger] locs[i]).start_line,
                ) && locs[i].win_lines == pattern(old).len() && locs[i].tier == 1
            &&& forall|s: int| #[trigger]
                exact_at(split_nl(text), pattern(old), s) ==> exists|i: int|
                    0 <= i < locs.len() && (#[trigger] locs[i]).start_line == s
            &&& forall|i: int, j: int|
                0 <= i < j < locs.len() ==> (#[trigger] locs[i]).start_line < (
                #[trigger] locs[j]).start_line
        },
{
    let lines = split_nl(text);
    let pat = pattern(old);
    let hits = exact_hits(lines, pat);
    lemma_hits(lines, pat, 0, 0);
    exact_hits_are_all_matches(lines, pat);
    assert forall|i: int| 0 <= i < hits.len() implies exact_at(
        lines,
        pat,
        #[trigger] hits[i] as int,
    ) by {
        lemma_exact_hits_fit(lines, pat, i);
    }
    if let Ok(locs) = every_place(text, old) {
        assert forall|s: int| #[trigger] exact_at(lines, pat, s) implies exists|i: int|
            0 <= i < locs.len() && (#[trigger] locs[i]).start_line == s by {
            assert(hits.contains(s as usize));
            let k = choose|k: int| 0 <= k < hits.len() && hits[k] == s as usize;
            assert(locs[k].start_line == s);
        }
        assert forall|i: int, j: int| 0 <= i < j < locs.len() implies (#[trigger] locs[i]).start_line
            < (#[trigger] locs[j]).start_line by {
            assert(hits[i] < hits[j]);
        }
    } else if exists|s: int| exact_at(lines, pat, s) {
        let s = choose|s: int| exact_at(lines, pat, s);
        assert(hits.contains(s as usize));
    }
}

/// Text that is given by its surroundings alone goes right behind the one in front, or right
/// before the other where only that is given; between the two where both are, and nowhere
/// where they are in the wrong order.
pub proof fn insertion_lies_between_its_contexts(
    text: Seq<char>,
    before: Seq<char>,
    after: Seq<char>,
    b: LocatedView,
    a: LocatedView,
)
    ensures
        ({
            let placed = insert_place(text, before, after);
            let has_b = pattern(before).len() > 0;
            let has_a = pattern(after).len() > 0;
            let b_at = anchor_place(text, before) == Ok::<LocatedView, ErrorView>(b);
            let a_at = anchor_place(text, after) == Ok::<LocatedView, ErrorView>(a);
            &&& !has_b && !has_a ==> placed == Err::<LocatedView, ErrorView>(
                ErrorView::Underspecified,
            )
            &&& has_b && !has_a && b_at ==> (placed matches Ok(l) && l.start_char == b.end_char
                && l.end_char == b.end_char && l.win_lines == 0)
            &&& !has_b && has_a && a_at ==> (placed matches Ok(l) && l.start_char == a.start_char
                && l.end_char == a.start_char && l.win_lines == 0)
            &&& has_b && has_a && b_at && a_at && b.end_char <= a.start_char ==> (placed matches Ok(
                l,
            ) && l.start_char == b.end_char && l.end_char == b.end_char && l.win_lines == 0)
            &&& has_b && has_a && b_at && a_at && b.end_char > a.start_char ==> (placed matches Err(
                e,
            ) && e is Ambiguous)
            &&& has_b && anchor_place(text, before) is Err ==> placed is Err
            &&& has_a && anchor_place(text, after) is Err ==> placed is Err
        }),
{
}

/// An in-line replacement goes to the lines of its anchor, if one of them holds the text or
/// matches the expression; else it is refused.
pub proof fn inline_replacement_needs_its_text(
    text: Seq<char>,
    anchor: Seq<char>,
    old: Seq<char>,
    l: LocatedView,
)
    requires
        anchor_place(text, anchor) == Ok::<LocatedView, ErrorView>(l),
    ensures
        inline_place(text, anchor, old, false) is Ok <==> exists|i: int|
            0 <= i < lines_of(text, l).len() && occurs(#[trigger] lines_of(text, l)[i], old),
        regex_error(old) is None ==> (inline_place(text, anchor, old, true) is Ok <==> exists|
            i: int,
        |
            0 <= i < lines_of(text, l).len() && regex_found(old, #[trigger] lines_of(text, l)[i])),
        regex_error(old) matches Some(why) ==> inline_place(text, anchor, old, true) == Err::<
            LocatedView,
            ErrorView,
        >(ErrorView::InvalidRegex(why)),
        forall|regex: bool|
            (#[trigger] inline_place(text, anchor, old, regex)) matches Ok(p) ==> p == l,
{
    let w = lines_of(text, l);
    if inline_place(text, anchor, old, false) is Ok {
        assert(window_holds(w, old, false));
        let i = choose|i: int| 0 <= i < w.len() && occurs(#[trigger] w[i], old);
        assert(occurs(w[i], old));
    }
    if regex_error(old) is None && inline_place(text, anchor, old, true) is Ok {
        assert(window_holds(w, old, true));
        let i = choose|i: int| 0 <= i < w.len() && regex_found(old, #[trigger] w[i]);
        assert(regex_found(old, w[i]));
    }
}

/// A hunk is looked for by what it names: the text to replace, or its anchor; whole-file
/// hunks are placed without a search.
pub proof fn hunk_is_looked_for_by_what_it_names(text: Seq<char>, h: Hunk)
    ensures
        h matches Hunk::Replace { old, context_before, context_after, replace_all, .. } ==> {
            &&& replace_all ==> hunk_places(text, h) == every_place(text, old@)
            &&& !replace_all ==> match replace_place(text, old@, context_before@, context_after@) {
                Ok(l) => hunk_places(text, h) == Ok::<Seq<LocatedView>, ErrorView>(seq![l]),
                Err(e) => hunk_places(text, h) == Err::<Seq<LocatedView>, ErrorView>(e),
            }
        },
        h matches Hunk::InsertAfter { anchor, .. } ==> match anchor_place(text, anchor@) {
            Ok(l) => hunk_places(text, h) == Ok::<Seq<LocatedView>, ErrorView>(seq![l]),
            Err(e) => hunk_places(text, h) == Err::<Seq<LocatedView>, ErrorView>(e),
        },
        h matches Hunk::InsertBefore { anchor, .. } ==> match anchor_place(text, anchor@) {
            Ok(l) => hunk_places(text, h) == Ok::<Seq<LocatedView>, ErrorView>(seq![l]),
            Err(e) => hunk_places(text, h) == Err::<Seq<LocatedView>, ErrorView>(e),
        },
        h matches Hunk::ReplaceInline { anchor, old, regex, .. } ==> match inline_place(
            text,
            anchor@,
            old@,
            regex,
        ) {
            Ok(l) => hunk_places(text, h) == Ok::<Seq<LocatedView>, ErrorView>(seq![l]),
            Err(e) => hunk_places(text, h) == Err::<Seq<LocatedView>, ErrorView>(e),
        },
        h is Overwrite || h is PrependFile || h is AppendFile ==> hunk_places(text, h) is Ok,
{
}

proof fn lemma_in_window(hits: Seq<usize>, lo: int, hi: int)
    ensures
        in_window(hits, lo, hi) == hits.filter(|x: usize| lo <= x < hi),
    decreases hits.len(),
{
    reveal(Seq::filter);
    if hits.len() > 0 {
        lemma_in_window(hits.drop_last(), lo, hi);
    }
    assert(in_window(hits, lo, hi) =~= hits.filter(|x: usize| lo <= x < hi));
}

/// A line hint settles an ambiguous hunk: where exactly one exact match begins within ten
/// lines of the hint, the hunk is placed there; where none does, the hunk stays ambiguous.
/// Without ambiguity a hint decides nothing.
pub proof fn hint_settles_ambiguity(text: Seq<char>, h: Hunk, hint: int, s: int)
    requires
        hint_of(h) == Some(hint),
        1 <= hint <= usize::MAX,
        pattern(hinted_text(h)).len() > 0,
        split_nl(text).len() <= usize::MAX,
        !(h is ReplaceInline),
    ensures
        hunk_places(text, h) is Ok ==> final_places(text, h) == hunk_places(text, h),
        hunk_places(text, h) matches Err(e) ==> (!(e is Ambiguous) ==> final_places(text, h)
            == hunk_places(text, h)),
        ({
            let lines = split_nl(text);
            let pat = pattern(hinted_text(h));
            let near = |x: int| exact_at(lines, pat, x) && hint - 10 <= x + 1 <= hint + 10;
            &&& near(s) && (forall|x: int| #[trigger] exact_at(lines, pat, x) && near(x) ==> x == s)
                && (hunk_places(text, h) matches Err(e) && e is Ambiguous) ==> (final_places(
                text,
                h,
            ) matches Ok(locs) && locs.len() == 1 && locs[0].start_line == s && locs[0].win_lines
                == pat.len() && locs[0].hint_line == Some(hint as usize) && locs[0].start_char
                == start_of(text, s))
            &&& (forall|x: int| #[trigger] exact_at(lines, pat, x) ==> !near(x)) ==> final_places(
                text,
                h,
            ) == hunk_places(text, h)
        }),
{
    let lines = split_nl(text);
    let total = lines.len() as int;
    let pat = pattern(hinted_text(h));
    let hits = exact_hits(lines, pat);
    let lo = hint_lo(hint, total);
    let hi = hint_hi(hint, total);
    let close = in_window(hits, lo, hi);
    exact_hits_are_all_matches(lines, pat);
    lemma_in_window(hits, lo, hi);
    lemma_in_window_member(hits, lo, hi);
    let near = |x: int| exact_at(lines, pat, x) && hint - 10 <= x + 1 <= hint + 10;
    assert forall|i: int| 0 <= i < close.len() implies near(#[trigger] close[i] as int) by {
        assert(close.contains(close[i]));
        assert(hits.contains(close[i]));
        let k = choose|k: int| 0 <= k < hits.len() && hits[k] == close[i];
        lemma_exact_hits_fit(lines, pat, k);
    }
    if near(s) {
        assert(hits.contains(s as usize));
        assert(lo <= s < hi);
        assert(close.contains(s as usize));
        let k = choose|k: int| 0 <= k < close.len() && close[k] == s as usize;
        if forall|x: int| #[trigger] exact_at(lines, pat, x) && near(x) ==> x == s {
            assert forall|i: int| 0 <= i < close.len() implies close[i] == s by {
                assert(near(close[i] as int));
                assert(exact_at(lines, pat, close[i] as int));
            }
            if close.len() > 1 {
                assert(close[0] < close[1]);
            }
            assert(close.len() == 1);
        }
    }
    if forall|x: int| #[trigger] exact_at(lines, pat, x) ==> !near(x) {
        if close.len() > 0 {
            assert(near(close[0] as int));
            assert(exact_at(lines, pat, close[0] as int));
        }
    }
}

proof fn lemma_in_window_member(hits: Seq<usize>, lo: int, hi: int)
    requires
        forall|i: int, j: int| 0 <= i < j < hits.len() ==> hits[i] < hits[j],
    ensures
        forall|x: usize| #[trigger]
            in_window(hits, lo, hi).contains(x) <==> hits.contains(x) && lo <= x < hi,
        forall|i: int, j: int|
            0 <= i < j < in_window(hits, lo, hi).len() ==> in_window(hits, lo, hi)[i] < in_window(
                hits,
                lo,
                hi,
            )[j],
    decreases hits.len(),
{
    let near = in_window(hits, lo, hi);
    if hits.len() > 0 {
        let front = hits.drop_last();
        assert forall|i: int, j: int| 0 <= i < j < front.len() implies front[i] < front[j] by {
            assert(hits[i] < hits[j]);
        }
        lemma_in_window_member(front, lo, hi);
        let rest = in_window(front, lo, hi);
        let last = hits.last();
        assert forall|x: usize| #[trigger] near.contains(x) <==> hits.contains(x) && lo <= x < hi by {
            if hits.contains(x) && x != last {
                let k = choose|k: int| 0 <= k < hits.len() && hits[k] == x;
                assert(front[k] == x);
                assert(front.contains(x));
                if lo <= x < hi {
                    assert(rest.contains(x));
                    let j = choose|j: int| 0 <= j < rest.len() && rest[j] == x;
                    assert(near[j] == x);
                }
            }
            if x == last {
                assert(hits[hits.len() - 1] == x);
                if lo <= x < hi {
                    assert(near[near.len() - 1] == x);
                }
            }
            if near.contains(x) {
                let j = choose|j: int| 0 <= j < near.len() && near[j] == x;
                if j < rest.len() {
                    assert(rest[j] == x);
                    assert(rest.contains(x));
                    let k = choose|k: int| 0 <= k < front.len() && front[k] == x;
                    assert(hits[k] == x);
                }
            }
        }
        assert forall|i: int, j: int| 0 <= i < j < near.len() implies near[i] < near[j] by {
            if j < rest.len() {
                assert(rest[i] < rest[j]);
            } else {
                assert(near[i] == rest[i]);
                assert(rest.contains(rest[i]));
                let k = choose|k: int| 0 <= k < front.len() && front[k] == rest[i];
                assert(hits[k] < hits[hits.len() - 1]);
            }
        }
    }
}

/// The hint of a hunk is the line it names; the first where it names line 0. A replacement
/// of every occurrence, and a hunk on the whole file, have none.
pub proof fn hint_is_the_line_named(h: Hunk)
    ensures
        h matches Hunk::Replace { replace_all, hint_line, .. } ==> {
            &&& replace_all ==> hint_of(h) is None
            &&& !replace_all && hint_line is None ==> hint_of(h) is None
            &&& !replace_all ==> (hint_line matches Some(n) ==> hint_of(h) == Some(if n >= 1 {
                n as int
            } else {
                1
            }))
        },
        h matches Hunk::InsertAfter { hint_line: Some(n), .. } ==> (n >= 1 ==> hint_of(h) == Some(
            n as int,
        )),
        h matches Hunk::InsertBefore { hint_line: Some(n), .. } ==> (n >= 1 ==> hint_of(h) == Some(
            n as int,
        )),
        h matches Hunk::ReplaceInline { hint_line: Some(n), .. } ==> (n >= 1 ==> hint_of(h) == Some(
            n as int,
        )),
        h is Overwrite || h is PrependFile || h is AppendFile ==> hint_of(h) is None,
        h matches Hunk::Replace { old, .. } ==> hinted_text(h) == old@,
        h matches Hunk::InsertAfter { anchor, .. } ==> hinted_text(h) == anchor@,
        h matches Hunk::InsertBefore { anchor, .. } ==> hinted_text(h) == anchor@,
        h matches Hunk::ReplaceInline { anchor, .. } ==> hinted_text(h) == anchor@,
{
}

/// Every window of up to two lines more or less than the pattern is tried, wherever it
/// begins, and scored against the pattern and its contexts.
pub proof fn every_window_is_tried(
    lines: Seq<Seq<char>>,
    pat: Seq<Seq<char>>,
    before: Seq<Seq<char>>,
    after: Seq<Seq<char>>,
    s: int,
    win: int,
)
    requires
        pat.len() > 0,
        pat.len() <= lines.len() + 2,
        lines.len() <= usize::MAX,
        1 <= win,
        pat.len() - 2 <= win <= pat.len() + 2,
        0 <= s,
        s + win <= lines.len(),
    ensures
        scored_windows(lines, pat, before, after).contains(
            Scored {
                score: score_at(lines, pat, before, after, s, win),
                start: s as usize,
                win: win as usize,
            },
        ),
{
    let p = pat.len() as int;
    let n = lines.len() as int;
    lemma_sizes(lines, pat, before, after, smallest(p), largest(p, n), s, win);
}

proof fn lemma_sizes(
    lines: Seq<Seq<char>>,
    pat: Seq<Seq<char>>,
    before: Seq<Seq<char>>,
    after: Seq<Seq<char>>,
    lo: int,
    hi: int,
    s: int,
    win: int,
)
    requires
        1 <= lo <= win <= hi,
        0 <= s,
        s + win <= lines.len(),
    ensures
        scored_sizes(lines, pat, before, after, lo, hi).contains(
            Scored {
                score: score_at(lines, pat, before, after, s, win),
                start: s as usize,
                win: win as usize,
            },
        ),
    decreases hi,
{
    let w = Scored {
        score: score_at(lines, pat, before, after, s, win),
        start: s as usize,
        win: win as usize,
    };
    let all = scored_sizes(lines, pat, before, after, lo, hi);
    let front = scored_sizes(lines, pat, before, after, lo, hi - 1);
    let back = scored_below(lines, pat, before, after, hi, lines.len() - hi + 1);
    if win == hi {
        lemma_below(lines, pat, before, after, hi, lines.len() - hi + 1, s);
        let k = choose|k: int| 0 <= k < back.len() && back[k] == w;
        assert(all[front.len() + k] == w);
    } else {
        lemma_sizes(lines, pat, before, after, lo, hi - 1, s, win);
        let k = choose|k: int| 0 <= k < front.len() && front[k] == w;
        assert(all[k] == w);
    }
}

proof fn lemma_below(
    lines: Seq<Seq<char>>,
    pat: Seq<Seq<char>>,
    before: Seq<Seq<char>>,
    after: Seq<Seq<char>>,
    win: int,
    m: int,
    s: int,
)
    requires
        0 <= s < m,
    ensures
        scored_below(lines, pat, before, after, win, m).contains(
            Scored {
                score: score_at(lines, pat, before, after, s, win),
                start: s as usize,
                win: win as usize,
            },
        ),
    decreases m,
{
    let w = Scored {
        score: score_at(lines, pat, before, after, s, win),
        start: s as usize,
        win: win as usize,
    };
    let all = scored_below(lines, pat, before, after, win, m);
    if s == m - 1 {
        assert(all[all.len() - 1] == w);
    } else {
        lemma_below(lines, pat, before, after, win, m - 1, s);
        let front = scored_below(lines, pat, before, after, win, m - 1);
        let k = choose|k: int| 0 <= k < front.len() && front[k] == w;
        assert(all[k] == w);
    }
}

/// A window is taken by similarity exactly when it is a clear winner: its score is the
/// highest and reaches 0.85, and leads that of every other window by 0.10.
pub proof fn only_a_clear_winner_is_taken(all: Seq<Scored>, i: int, j: int)
    requires
        all_scores(all),
        leads(all, i),
        0 <= j < all.len(),
        j != i,
        forall|k: int|
            0 <= k < all.len() && k != i ==> !(#[trigger] all[k]).score.beats(all[j].score),
    ensures
        ({
            let a = all[i].score;
            let b = all[j].score;
            let high = 20 * a.num() >= 17 * a.den();
            let clear = 10 * (a.num() * b.den()) >= 10 * (b.num() * a.den()) + a.den() * b.den();
            verdict(rank(all)).hit == (if high && clear {
                Some(all[i])
            } else {
                None
            })
        }),
{
    let w = ranking_is_the_best_two(all);
    assert(w == i) by {
        if w < i {
            assert(all[i].score.beats(all[w].score));
        } else if i < w {
            assert(all[w].score.beats(all[i].score));
        }
    }
    let a = all[i].score;
    let b = all[j].score;
    let c = rank(all).second;
    score_is_at_most_one(a);
    score_is_at_most_one(b);
    score_is_at_most_one(c);
    assert(!b.beats(c));
    assert(!c.beats(b)) by {
        if c == crate::edit::exact::no_likeness() {
            assert(c.num() == 0) by (nonlinear_arith)
                requires
                    c == crate::edit::exact::no_likeness(),
            ;
            assert(0 * b.den() == 0) by (nonlinear_arith);
        } else {
            let k = choose|k: int|
                0 <= k < all.len() && k != i && (#[trigger] all[k]).score == c;
            assert(!all[k].score.beats(b));
        }
    }
    assert(c.num() * b.den() == b.num() * c.den());
    lemma_margin(a.num(), a.den(), b.num(), b.den(), c.num(), c.den());
}

proof fn lemma_margin(an: nat, ad: nat, bn: nat, bd: nat, cn: nat, cd: nat)
    requires
        ad > 0,
        bd > 0,
        cd > 0,
        cn * bd == bn * cd,
    ensures
        10 * (an * bd) >= 10 * (bn * ad) + ad * bd <==> 10 * (an * cd) >= 10 * (cn * ad) + ad * cd,
{
    let x = 10 * (an * bd) - 10 * (bn * ad) - ad * bd;
    let y = 10 * (an * cd) - 10 * (cn * ad) - ad * cd;
    assert(x * cd == y * bd) by (nonlinear_arith)
        requires
            x == 10 * (an * bd) - 10 * (bn * ad) - ad * bd,
            y == 10 * (an * cd) - 10 * (cn * ad) - ad * cd,
            cn * bd == bn * cd,
    ;
    assert(x >= 0 <==> x * cd >= 0) by (nonlinear_arith)
        requires
            cd > 0,
    ;
    assert(y >= 0 <==> y * bd >= 0) by (nonlinear_arith)
        requires
            bd > 0,
    ;
}

/// Where no line stands as the pattern does and no window has its shape, similarity decides:
/// a clear winner is the place, and else there is none.
pub proof fn similarity_comes_last(text: Seq<char>, old: Seq<char>, before: Seq<char>, after: Seq<char>)
    requires
        pattern(old).len() > 0,
        exact_hits(split_nl(text), pattern(old)).len() == 0,
        shape_hits(split_nl(text), pattern(old)).len() == 0,
    ensures
        ({
            let all = scored_windows(split_nl(text), pattern(old), pattern(before), pattern(after));
            let placed = replace_place(text, old, before, after);
            &&& verdict(rank(all)).hit matches Some(w) ==> (placed matches Ok(l) && l.start_line
                == w.start && l.win_lines == w.win && l.tier == 3)
            &&& verdict(rank(all)).hit is None ==> (placed matches Err(e) && e is NoMatch)
        }),
{
}

/// A place has its context where the lines right before it are the one context and the lines
/// right behind it the other; an empty context is met anywhere.
pub proof fn context_stands_right_beside_the_place(
    lines: Seq<Seq<char>>,
    s: int,
    win: int,
    before: Seq<Seq<char>>,
    after: Seq<Seq<char>>,
)
    requires
        0 <= s,
        0 <= win,
        s + win <= lines.len(),
    ensures
        context_at(lines, s, win, before, after) <==> before.len() <= s && s + win + after.len()
            <= lines.len() && lines.subrange(s - before.len(), s) == before && lines.subrange(
            s + win,
            s + win + after.len(),
        ) == after,
{
}

/// A pattern stands at a line where the lines from there on are its own.
pub proof fn pattern_stands_line_by_line(lines: Seq<Seq<char>>, pat: Seq<Seq<char>>, s: int)
    ensures
        exact_at(lines, pat, s) <==> 0 <= s && s + pat.len() <= lines.len() && forall|k: int|
            0 <= k < pat.len() ==> #[trigger] lines[s + k] == pat[k],
{
    if 0 <= s && s + pat.len() <= lines.len() {
        let part = lines.subrange(s, s + pat.len());
        if forall|k: int| 0 <= k < pat.len() ==> #[trigger] lines[s + k] == pat[k] {
            assert forall|k: int| 0 <= k < pat.len() implies part[k] == pat[k] by {
                assert(lines[s + k] == pat[k]);
            }
            assert(part =~= pat);
        }
        if exact_at(lines, pat, s) {
            assert forall|k: int| 0 <= k < pat.len() implies #[trigger] lines[s + k] == pat[k] by {
                assert(part[k] == lines[s + k]);
            }
        }
    }
}

/// An anchor that neither stands in the file nor has its shape there is placed by similarity
/// alone, without contexts.
pub proof fn anchors_are_placed_by_similarity_last(text: Seq<char>, anchor: Seq<char>)
    requires
        pattern(anchor).len() > 0,
        exact_hits(split_nl(text), pattern(anchor)).len() == 0,
        shape_hits(split_nl(text), pattern(anchor)).len() == 0,
    ensures
        ({
            let none = Seq::<Seq<char>>::empty();
            let all = scored_windows(split_nl(text), pattern(anchor), none, none);
            let placed = anchor_place(text, anchor);
            &&& verdict(rank(all)).hit matches Some(w) ==> (placed matches Ok(l) && l.start_line
                == w.start && l.win_lines == w.win && l.tier == 3 && l.score
                == w.score.billionths())
            &&& verdict(rank(all)).hit is None ==> (placed matches Err(e) && e is NoMatch)
        }),
        anchor_place(text, Seq::empty()) == Err::<LocatedView, ErrorView>(
            ErrorView::Underspecified,
        ),
{
    assert(split_nl(Seq::<char>::empty()) =~= seq![Seq::<char>::empty()]);
    reveal_with_fuel(drop_empty_tail, 3);
    assert(seq![Seq::<char>::empty()].drop_last() =~= Seq::<Seq<char>>::empty());
}

/// Between two contexts the looser tier and the lower score of the two count.
pub proof fn insertion_is_as_sure_as_its_contexts(
    text: Seq<char>,
    before: Seq<char>,
    after: Seq<char>,
    b: LocatedView,
    a: LocatedView,
)
    requires
        anchor_place(text, before) == Ok::<LocatedView, ErrorView>(b),
        anchor_place(text, after) == Ok::<LocatedView, ErrorView>(a),
        pattern(before).len() > 0,
        pattern(after).len() > 0,
    ensures
        insert_place(text, before, after) matches Ok(l) ==> l.tier >= b.tier && l.tier >= a.tier && (
        l.tier == b.tier || l.tier == a.tier) && l.score <= b.score && l.score <= a.score && (l.score
            == b.score || l.score == a.score),
        insert_place(text, before, Seq::empty()) matches Ok(l) ==> l.tier == b.tier && l.score
            == b.score,
        insert_place(text, Seq::empty(), after) matches Ok(l) ==> l.tier == a.tier && l.score
            == a.score,
{
    assert(split_nl(Seq::<char>::empty()) =~= seq![Seq::<char>::empty()]);
    reveal_with_fuel(drop_empty_tail, 3);
    assert(seq![Seq::<char>::empty()].drop_last() =~= Seq::<Seq<char>>::empty());
}

/// A replacement without a text to replace is an insertion between its contexts.
pub proof fn empty_replacement_is_an_insertion(
    text: Seq<char>,
    old: Seq<char>,
    before: Seq<char>,
    after: Seq<char>,
)
    requires
        pattern(old).len() == 0,
    ensures
        replace_place(text, old, before, after) == insert_place(text, before, after),
        every_place(text, old) == Err::<Seq<LocatedView>, ErrorView>(ErrorView::Underspecified),
{
}

/// A line hint settles an ambiguous in-line replacement only where the lines of the anchor
/// found near it hold the text.
pub proof fn hint_needs_the_text_in_the_window(text: Seq<char>, h: Hunk, hint: int, s: int)
    requires
        h matches Hunk::ReplaceInline { regex, .. } && !regex,
        hint_of(h) == Some(hint),
        1 <= hint <= usize::MAX,
        pattern(hinted_text(h)).len() > 0,
        split_nl(text).len() <= usize::MAX,
        only_at(split_nl(text), pattern(hinted_text(h)), s),
        hint - 10 <= s + 1 <= hint + 10,
    ensures
        ({
            let window = split_nl(text).subrange(s, s + pattern(hinted_text(h)).len());
            let old = h->ReplaceInline_old@;
            let held = exists|i: int| 0 <= i < window.len() && occurs(#[trigger] window[i], old);
            &&& held ==> (hint_place(text, h) matches Some(Ok(l)) && l.start_line == s && l.hint_line
                == Some(hint as usize))
            &&& !held ==> hint_place(text, h) is None
        }),
{
    let lines = split_nl(text);
    let pat = pattern(hinted_text(h));
    let total = lines.len() as int;
    lemma_hits(lines, pat, s, s);
    let hits = exact_hits(lines, pat);
    let lo = hint_lo(hint, total);
    let hi = hint_hi(hint, total);
    assert(lo <= s < hi);
    assert(hits == seq![s as usize]);
    reveal_with_fuel(in_window, 2);
    assert(hits.drop_last() =~= Seq::<usize>::empty());
    assert(in_window(hits, lo, hi) =~= seq![s as usize]);
    let window = lines.subrange(s, s + pat.len());
    let old = h->ReplaceInline_old@;
    if exists|i: int| 0 <= i < window.len() && occurs(#[trigger] window[i], old) {
        let i = choose|i: int| 0 <= i < window.len() && occurs(#[trigger] window[i], old);
        assert(window_holds(window, old, false));
    } else if window_holds(window, old, false) {
        let i = choose|i: int|
            0 <= i < window.len() && (if false {
                regex_found(old, #[trigger] window[i])
            } else {
                occurs(window[i], old)
            });
        assert(occurs(window[i], old));
    }
}


/// Several windows of the same shape are told apart by the context, as exact matches are: the
/// one that has it is taken, and with none or two the text is ambiguous.
pub proof fn context_tells_shapes_apart(
    text: Seq<char>,
    old: Seq<char>,
    before: Seq<char>,
    after: Seq<char>,
    s: int,
    t: int,
)
    requires
        pattern(old).len() > 0,
        split_nl(text).len() <= usize::MAX,
        nowhere(split_nl(text), pattern(old)),
        s != t,
        shape_at(split_nl(text), stripped(pattern(old)), s),
        shape_at(split_nl(text), stripped(pattern(old)), t),
    ensures
        ({
            let lines = split_nl(text);
            let shape = stripped(pattern(old));
            let n = pattern(old).len() as int;
            let placed = replace_place(text, old, before, after);
            let fits = |x: int| context_at(lines, x, n, pattern(before), pattern(after));
            &&& fits(s) && (forall|x: int| #[trigger] shape_at(lines, shape, x) && fits(x) ==> x == s)
                ==> (placed matches Ok(l) && l.start_line == s && l.win_lines == n && l.tier == 2)
            &&& (forall|x: int| #[trigger] shape_at(lines, shape, x) ==> !fits(x)) ==> (
            placed matches Err(e) && e is Ambiguous)
            &&& fits(s) && fits(t) ==> (placed matches Err(e) && e is Ambiguous)
        }),
{
    let lines = split_nl(text);
    let pat = pattern(old);
    let shape = stripped(pat);
    let n = pat.len() as int;
    let b = pattern(before);
    let a = pattern(after);
    lemma_hits(lines, pat, s, t);
    lemma_shapes(lines, shape, lines.len() as int);
    assert(shape.len() == n);
    let hits = shape_hits(lines, pat);
    assert(hits.contains(s as usize) && hits.contains(t as usize));
    let i = choose|i: int| 0 <= i < hits.len() && hits[i] == s as usize;
    let j = choose|j: int| 0 <= j < hits.len() && hits[j] == t as usize;
    assert(i != j);
    let near = in_context(lines, hits, n, b, a);
    lemma_in_context(lines, hits, n, b, a);
    assert forall|k: int| 0 <= k < near.len() implies shape_at(
        lines,
        shape,
        #[trigger] near[k] as int,
    ) && context_at(lines, near[k] as int, n, b, a) by {
        assert(near.contains(near[k]));
        assert(hits.contains(near[k]));
        let m = choose|m: int| 0 <= m < hits.len() && hits[m] == near[k];
        assert(shape_at(lines, shape, hits[m] as int));
    }
    if context_at(lines, s, n, b, a) {
        assert(near.contains(s as usize));
        let k = choose|k: int| 0 <= k < near.len() && near[k] == s as usize;
        if forall|x: int| #[trigger]
            shape_at(lines, shape, x) && context_at(lines, x, n, b, a) ==> x == s {
            assert forall|m: int| 0 <= m < near.len() implies near[m] == s by {
                assert(shape_at(lines, shape, near[m] as int));
            }
            if near.len() > 1 {
                assert(near[0] < near[1]);
            }
            assert(near.len() == 1);
        }
        if context_at(lines, t, n, b, a) {
            assert(near.contains(t as usize));
            let m = choose|m: int| 0 <= m < near.len() && near[m] == t as usize;
            assert(k != m);
        }
    }
    if forall|x: int| #[trigger]
        shape_at(lines, shape, x) ==> !context_at(lines, x, n, b, a) {
        if near.len() > 0 {
            assert(shape_at(lines, shape, near[0] as int));
        }
    }
}

/// A line hint with two exact matches within ten lines of it settles nothing: the hunk stays
/// ambiguous.
pub proof fn two_matches_near_a_hint_stay_ambiguous(text: Seq<char>, h: Hunk, hint: int, s: int, t: int)
    requires
        hint_of(h) == Some(hint),
        1 <= hint <= usize::MAX,
        pattern(hinted_text(h)).len() > 0,
        split_nl(text).len() <= usize::MAX,
        s != t,
        exact_at(split_nl(text), pattern(hinted_text(h)), s),
        exact_at(split_nl(text), pattern(hinted_text(h)), t),
        hint - 10 <= s + 1 <= hint + 10,
        hint - 10 <= t + 1 <= hint + 10,
    ensures
        hint_place(text, h) matches Some(Err(e)) && e is Ambiguous,
        hunk_places(text, h) is Err ==> final_places(text, h) is Err,
{
    let lines = split_nl(text);
    let total = lines.len() as int;
    let pat = pattern(hinted_text(h));
    let hits = exact_hits(lines, pat);
    let lo = hint_lo(hint, total);
    let hi = hint_hi(hint, total);
    exact_hits_are_all_matches(lines, pat);
    lemma_in_window_member(hits, lo, hi);
    let close = in_window(hits, lo, hi);
    assert(hits.contains(s as usize) && hits.contains(t as usize));
    assert(close.contains(s as usize) && close.contains(t as usize));
    let i = choose|i: int| 0 <= i < close.len() && close[i] == s as usize;
    let j = choose|j: int| 0 <= j < close.len() && close[j] == t as usize;
    assert(i != j);
}

/// The places that an ambiguous anchor could mean are named: the first three lines at which it
/// stands.
pub proof fn ambiguous_anchor_names_its_places(text: Seq<char>, anchor: Seq<char>)
    requires
        pattern(anchor).len() > 0,
        exact_hits(split_nl(text), pattern(anchor)).len() > 1,
    ensures
        ({
            let hits = exact_hits(split_nl(text), pattern(anchor));
            anchor_place(text, anchor) matches Err(e) && e matches ErrorView::Ambiguous {
                candidates,
                ..
            } && candidates.len() == (if hits.len() < 3 {
                hits.len()
            } else {
                3
            }) && forall|i: int|
                0 <= i < candidates.len() ==> (#[trigger] candidates[i]).first == hits[i] + 1
                    && candidates[i].last == hits[i] + pattern(anchor).len() && candidates[i].tier
                    == 1
        }),
{
}

/// The candidates of a search by similarity are its best windows, three at most.
pub proof fn best_windows_are_named(lines: Seq<Seq<char>>, pat: Seq<Seq<char>>, all: Seq<Scored>)
    ensures
        ({
            let best = top(all, 3);
            let named = scored_candidates(lines, pat, all);
            &&& named.len() == best.len()
            &&& forall|i: int|
                0 <= i < named.len() ==> (#[trigger] named[i]).first == best[i].start + 1
                    && named[i].last == best[i].start + best[i].win && named[i].score
                    == best[i].score.billionths() && named[i].tier == 3
        }),
{
}

} // verus!
