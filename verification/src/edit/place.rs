//! Placing whole hunks, with or without a line hint.

use vstd::prelude::*;

use crate::edit::candidate::{cand_views, candidates_at, make_candidates, Candidate, CandidateView};
use crate::edit::hunk::Hunk;
use crate::edit::locate::{
    anchor_place, loc_result, loc_views, locate_anchor, locate_replace, located, place,
    replace_place, within, ErrorView, LocateError, Located, LocatedView, HINT_WINDOW,
};
use crate::edit::matching::{exact_hits, lemma_exact_hits_fit, pattern, pattern_lines, tier1, SCORE_ONE};
use crate::edit::score::{score_windows, scored_candidates, scored_windows, tier3_candidates};
use crate::edit::view::FileView;
use crate::format::{dec, decimal_size};
use crate::lines::{split_nl, views};
use crate::outside::{regex_check, regex_error, regex_found, regex_is_match};
use crate::search::{contains, occurs};
use crate::text::{chars_of, string_of};

verus! {

/// Where a replacement of every occurrence goes: all exact matches.
pub open spec fn every_place(text: Seq<char>, old: Seq<char>) -> Result<Seq<LocatedView>, ErrorView> {
    let lines = split_nl(text);
    let pat = pattern(old);
    let n = pat.len() as int;
    let hits = exact_hits(lines, pat);
    if n == 0 {
        Err(ErrorView::Underspecified)
    } else if hits.len() == 0 {
        Err(
            ErrorView::NoMatch {
                candidates: scored_candidates(
                    lines,
                    pat,
                    scored_windows(lines, pat, Seq::<Seq<char>>::empty(), Seq::<Seq<char>>::empty()),
                ),
                detail: "replace_all: no exact match found — re-check 'old' against the file (see candidates below)"@,
            },
        )
    } else {
        Ok(
            Seq::new(
                hits.len(),
                |i: int|
                    place(text, hits[i] as int, n, 1, SCORE_ONE as nat, "exact (replace_all)"@),
            ),
        )
    }
}

/// Located places as their views.
pub open spec fn locs_result(r: Result<Vec<Located>, LocateError>) -> Result<
    Seq<LocatedView>,
    ErrorView,
> {
    match r {
        Ok(v) => Ok(loc_views(v@)),
        Err(e) => Err(e@),
    }
}

/// All places lie within the text.
pub open spec fn all_within(text: Seq<char>, locs: Seq<LocatedView>) -> bool {
    forall|i: int| 0 <= i < locs.len() ==> within(text, #[trigger] locs[i])
}

/// Locates every exact occurrence of `old`.
pub fn locate_replace_all(view: &FileView, old: &str) -> (r: Result<Vec<Located>, LocateError>)
    requires
        view.wf(),
    ensures
        locs_result(r) == every_place(view.content@, old@),
        r matches Ok(v) ==> all_within(view.content@, loc_views(v@)) && v@.len() > 0,
{
    let old_chars: Vec<char> = chars_of(old);
    let pat: Vec<Vec<char>> = pattern_lines(old_chars.as_slice());
    let total: usize = view.lines.len();
    proof {
        assert(views(pat@).len() == pat@.len());
    }
    if pat.len() == 0 {
        return Err(LocateError::Underspecified);
    }
    let hits: Vec<usize> = tier1(view, pat.as_slice());
    if hits.len() == 0 {
        let none: Vec<Vec<char>> = Vec::new();
        proof {
            assert(views(none@) =~= Seq::<Seq<char>>::empty());
        }
        let all = score_windows(view, pat.as_slice(), none.as_slice(), none.as_slice());
        return Err(
            LocateError::NoMatch {
                candidates: tier3_candidates(view, pat.as_slice(), all),
                detail: "replace_all: no exact match found — re-check 'old' against the file (see candidates below)".to_owned(),
            },
        );
    }
    let ghost spec = every_place(view.content@, old@)->Ok_0;
    let mut out: Vec<Located> = Vec::new();
    let mut i: usize = 0;
    while i < hits.len()
        invariant
            view.wf(),
            total == view.all().len(),
            hits@ == exact_hits(view.all(), views(pat@)),
            views(pat@) == pattern(old@),
            views(pat@).len() == pat@.len(),
            pat@.len() > 0,
            hits@.len() > 0,
            spec == every_place(view.content@, old@)->Ok_0,
            i <= hits@.len() == spec.len(),
            out@.len() == i,
            forall|k: int|
                0 <= k < i ==> #[trigger] out@[k]@ == spec[k] && within(view.content@, out@[k]@),
        decreases hits@.len() - i,
    {
        proof {
            lemma_exact_hits_fit(view.all(), views(pat@), i as int);
        }
        let l: Located = located(view, hits[i], pat.len(), 1, SCORE_ONE, "exact (replace_all)");
        out.push(l);
        i = i + 1;
    }
    proof {
        assert(loc_views(out@) =~= spec);
        assert forall|k: int| 0 <= k < loc_views(out@).len() implies within(
            view.content@,
            #[trigger] loc_views(out@)[k],
        ) by {
            assert(out@[k]@ == spec[k]);
        }
    }
    Ok(out)
}

/// Some line of a window holds the text, or matches the expression.
pub open spec fn window_holds(window: Seq<Seq<char>>, old: Seq<char>, regex: bool) -> bool {
    exists|i: int|
        0 <= i < window.len() && (if regex {
            regex_found(old, #[trigger] window[i])
        } else {
            occurs(window[i], old)
        })
}

/// The lines of a place.
pub open spec fn lines_of(text: Seq<char>, l: LocatedView) -> Seq<Seq<char>> {
    split_nl(text).subrange(l.start_line, l.start_line + l.win_lines)
}

/// The detail reported when the anchor was found but its lines do not hold `old`.
pub open spec fn not_in_window(l: LocatedView) -> Seq<char> {
    "replace_inline: 'old' not found within the anchor window (L"@ + dec((l.start_line + 1) as nat)
        + "-L"@ + dec((l.start_line + l.win_lines) as nat)
        + "); the anchor located the window but the substring/regex does not occur in it"@
}

/// Where an in-line replacement goes: the lines of the anchor, if they hold the
/// text.
pub open spec fn inline_place(
    text: Seq<char>,
    anchor: Seq<char>,
    old: Seq<char>,
    regex: bool,
) -> Result<LocatedView, ErrorView> {
    match anchor_place(text, anchor) {
        Err(e) => Err(e),
        Ok(l) => {
            if regex && regex_error(old) is Some {
                Err(ErrorView::InvalidRegex(regex_error(old)->0))
            } else if !window_holds(lines_of(text, l), old, regex) {
                Err(
                    ErrorView::NoMatch {
                        candidates: Seq::<CandidateView>::empty(),
                        detail: not_in_window(l),
                    },
                )
            } else {
                Ok(l)
            }
        },
    }
}

fn locate_inline(view: &FileView, anchor: &str, old: &str, regex: bool) -> (r: Result<
    Located,
    LocateError,
>)
    requires
        view.wf(),
    ensures
        loc_result(r) == inline_place(view.content@, anchor@, old@, regex),
        r matches Ok(l) ==> within(view.content@, l@) && l.win_lines > 0,
{
    let l: Located = match locate_anchor(view, anchor) {
        Ok(l) => l,
        Err(e) => {
            return Err(e);
        },
    };
    let n: usize = view.lines.len();
    if regex {
        match regex_check(old) {
            Some(e) => {
                return Err(LocateError::InvalidRegex(e));
            },
            None => {},
        }
    }
    if !place_holds(view, &l, old, regex) {
        let none: Vec<Candidate> = Vec::new();
        proof {
            assert(cand_views(none@) =~= Seq::<CandidateView>::empty());
        }
        let mut detail: String = "replace_inline: 'old' not found within the anchor window (L".to_owned();
        detail.append(decimal_size(l.start_line + 1).as_str());
        detail.append("-L");
        detail.append(decimal_size(l.start_line + l.win_lines).as_str());
        detail.append(
            "); the anchor located the window but the substring/regex does not occur in it",
        );
        return Err(LocateError::NoMatch { candidates: none, detail });
    }
    Ok(l)
}

/// A place that is no window of lines.
pub open spec fn whole(start: int, end: int, note: Seq<char>) -> LocatedView {
    LocatedView {
        start_char: start,
        end_char: end,
        start_line: 0,
        win_lines: 0,
        tier: 1,
        score: SCORE_ONE as nat,
        note,
        hint_line: None,
    }
}

/// Where a hunk goes.
pub open spec fn hunk_places(text: Seq<char>, h: Hunk) -> Result<Seq<LocatedView>, ErrorView> {
    let end = text.len() as int;
    match h {
        Hunk::Replace { old, context_before, context_after, replace_all, .. } => {
            if replace_all {
                every_place(text, old@)
            } else {
                alone(replace_place(text, old@, context_before@, context_after@))
            }
        },
        Hunk::Overwrite { .. } => alone(Ok(whole(0, end, "overwrite"@))),
        Hunk::InsertAfter { anchor, .. } => alone(anchor_place(text, anchor@)),
        Hunk::InsertBefore { anchor, .. } => alone(anchor_place(text, anchor@)),
        Hunk::PrependFile { .. } => alone(Ok(whole(0, 0, "prepend"@))),
        Hunk::AppendFile { .. } => alone(Ok(whole(end, end, "append"@))),
        Hunk::ReplaceInline { anchor, old, regex, .. } => alone(
            inline_place(text, anchor@, old@, regex),
        ),
    }
}

/// Whether some line of a place holds the text or matches the expression.
fn place_holds(view: &FileView, l: &Located, old: &str, regex: bool) -> (r: bool)
    requires
        view.wf(),
        within(view.content@, l@),
        regex ==> regex_error(old@) is None,
    ensures
        r == window_holds(lines_of(view.content@, l@), old@, regex),
{
    let old_chars: Vec<char> = chars_of(old);
    let n: usize = view.lines.len();
    let ghost w = lines_of(view.content@, l@);
    let mut i: usize = 0;
    while i < l.win_lines
        invariant
            view.wf(),
            n == view.lines@.len(),
            within(view.content@, l@),
            w == lines_of(view.content@, l@),
            regex ==> regex_error(old@) is None,
            old_chars@ == old@,
            i <= l.win_lines,
            forall|k: int|
                0 <= k < i ==> !(if regex {
                    regex_found(old@, #[trigger] w[k])
                } else {
                    occurs(w[k], old@)
                }),
        decreases l.win_lines - i,
    {
        let line: &Vec<char> = &view.lines[l.start_line + i];
        proof {
            assert(views(view.lines@)[l.start_line + i] == line@);
            assert(w[i as int] == line@);
        }
        let hit: bool = if regex {
            let s: String = string_of(line.as_slice());
            regex_is_match(old, s.as_str())
        } else {
            contains(line.as_slice(), old_chars.as_slice())
        };
        if hit {
            return true;
        }
        i = i + 1;
    }
    false
}

/// A single place as a list.
pub open spec fn alone(r: Result<LocatedView, ErrorView>) -> Result<Seq<LocatedView>, ErrorView> {
    match r {
        Ok(l) => Ok(seq![l]),
        Err(e) => Err(e),
    }
}

fn one_place(r: Result<Located, LocateError>, Ghost(text): Ghost<Seq<char>>) -> (out: Result<
    Vec<Located>,
    LocateError,
>)
    requires
        r matches Ok(l) ==> within(text, l@),
    ensures
        locs_result(out) == alone(loc_result(r)),
        out matches Ok(v) ==> all_within(text, loc_views(v@)) && v@.len() > 0,
{
    match r {
        Ok(l) => {
            let mut v: Vec<Located> = Vec::new();
            v.push(l);
            proof {
                assert(loc_views(v@) =~= seq![l@]);
            }
            Ok(v)
        },
        Err(e) => Err(e),
    }
}

fn whole_point(start: usize, end: usize, note: &str) -> (l: Located)
    ensures
        l@ == whole(start as int, end as int, note@),
{
    Located {
        start_char: start,
        end_char: end,
        start_line: 0,
        win_lines: 0,
        tier: 1,
        score: SCORE_ONE,
        note: note.to_owned(),
        hint_line: None,
    }
}

/// Locates a hunk: all the places that it changes.
pub fn locate_hunk(view: &FileView, hunk: &Hunk) -> (r: Result<Vec<Located>, LocateError>)
    requires
        view.wf(),
    ensures
        locs_result(r) == hunk_places(view.content@, *hunk),
        r matches Ok(v) ==> all_within(view.content@, loc_views(v@)) && v@.len() > 0,
{
    let ghost text = view.content@;
    match hunk {
        Hunk::Replace { old, context_before, context_after, replace_all, .. } => {
            if *replace_all {
                return locate_replace_all(view, old.as_str());
            }
            let r = locate_replace(
                view,
                old.as_str(),
                context_before.as_str(),
                context_after.as_str(),
            );
            one_place(r, Ghost(text))
        },
        Hunk::Overwrite { .. } => {
            one_place(Ok(whole_point(0, view.char_len(), "overwrite")), Ghost(text))
        },
        Hunk::InsertAfter { anchor, .. } => {
            one_place(locate_anchor(view, anchor.as_str()), Ghost(text))
        },
        Hunk::InsertBefore { anchor, .. } => {
            one_place(locate_anchor(view, anchor.as_str()), Ghost(text))
        },
        Hunk::PrependFile { .. } => { one_place(Ok(whole_point(0, 0, "prepend")), Ghost(text)) },
        Hunk::AppendFile { .. } => {
            one_place(
                Ok(whole_point(view.char_len(), view.char_len(), "append")),
                Ghost(text),
            )
        },
        Hunk::ReplaceInline { anchor, old, regex, .. } => {
            one_place(locate_inline(view, anchor.as_str(), old.as_str(), *regex), Ghost(text))
        },
    }
}

/// The positions of a list that lie in `lo..hi`.
pub open spec fn in_window(hits: Seq<usize>, lo: int, hi: int) -> Seq<usize>
    decreases hits.len(),
{
    if hits.len() == 0 {
        Seq::<usize>::empty()
    } else {
        let rest = in_window(hits.drop_last(), lo, hi);
        if lo <= hits.last() < hi {
            rest.push(hits.last())
        } else {
            rest
        }
    }
}

proof fn lemma_in_window_member(hits: Seq<usize>, lo: int, hi: int)
    ensures
        forall|i: int|
            0 <= i < in_window(hits, lo, hi).len() ==> hits.contains(
                #[trigger] in_window(hits, lo, hi)[i],
            ),
    decreases hits.len(),
{
    if hits.len() > 0 {
        let front = hits.drop_last();
        lemma_in_window_member(front, lo, hi);
        let rest = in_window(front, lo, hi);
        let all = in_window(hits, lo, hi);
        assert forall|i: int| 0 <= i < all.len() implies hits.contains(#[trigger] all[i]) by {
            if i < rest.len() {
                assert(front.contains(rest[i]));
                let k = choose|k: int| 0 <= k < front.len() && front[k] == rest[i];
                assert(hits[k] == all[i]);
            } else {
                assert(hits[hits.len() - 1] == all[i]);
            }
        }
    }
}

/// Exact matches within the lines `lo..hi`.
pub fn tier1_in_window(view: &FileView, pat: &[Vec<char>], lo: usize, hi: usize) -> (out: Vec<
    usize,
>)
    requires
        view.wf(),
    ensures
        out@ == in_window(exact_hits(view.all(), views(pat@)), lo as int, hi as int),
        forall|i: int|
            0 <= i < out@.len() ==> (#[trigger] out@[i]) + views(pat@).len() <= view.all().len(),
{
    let hits: Vec<usize> = tier1(view, pat);
    let total: usize = view.lines.len();
    let mut out: Vec<usize> = Vec::new();
    let mut i: usize = 0;
    proof {
        assert(hits@.take(0) =~= Seq::<usize>::empty());
    }
    while i < hits.len()
        invariant
            i <= hits@.len(),
            out@ == in_window(hits@.take(i as int), lo as int, hi as int),
        decreases hits@.len() - i,
    {
        proof {
            assert(hits@.take(i + 1).drop_last() =~= hits@.take(i as int));
        }
        if hits[i] >= lo && hits[i] < hi {
            out.push(hits[i]);
        }
        i = i + 1;
    }
    proof {
        assert(hits@.take(hits@.len() as int) =~= hits@);
        lemma_in_window_member(hits@, lo as int, hi as int);
        assert forall|i: int| 0 <= i < out@.len() implies (#[trigger] out@[i]) + views(pat@).len()
            <= view.all().len() by {
            let k = choose|k: int| 0 <= k < hits@.len() && hits@[k] == out@[i];
            lemma_exact_hits_fit(view.all(), views(pat@), k);
        }
    }
    out
}

/// The line hint of a hunk, where hints count: at least 1.
pub open spec fn hint_of(h: Hunk) -> Option<int> {
    let hint = match h {
        Hunk::Replace { hint_line, replace_all, .. } => if replace_all {
            None
        } else {
            hint_line
        },
        Hunk::InsertAfter { hint_line, .. } => hint_line,
        Hunk::InsertBefore { hint_line, .. } => hint_line,
        Hunk::ReplaceInline { hint_line, .. } => hint_line,
        _ => None,
    };
    match hint {
        Some(n) => Some(if n == 0 { 1 } else { n as int }),
        None => None,
    }
}

/// The text that a hint looks for near its line.
pub open spec fn hinted_text(h: Hunk) -> Seq<char> {
    match h {
        Hunk::Replace { old, .. } => old@,
        Hunk::InsertAfter { anchor, .. } => anchor@,
        Hunk::InsertBefore { anchor, .. } => anchor@,
        Hunk::ReplaceInline { anchor, .. } => anchor@,
        _ => Seq::<char>::empty(),
    }
}

/// The first line (0-based) that a hint reaches.
pub open spec fn hint_lo(hint: int, total: int) -> int {
    let lo = if hint <= HINT_WINDOW + 1 { 0 } else { hint - HINT_WINDOW - 1 };
    if lo <= total {
        lo
    } else {
        total
    }
}

/// The line (0-based) after the last that a hint reaches.
pub open spec fn hint_hi(hint: int, total: int) -> int {
    if hint + HINT_WINDOW <= total {
        hint + HINT_WINDOW
    } else {
        total
    }
}

/// The detail reported when a hint leaves several places.
pub open spec fn hint_detail(h: Hunk, hint: int, count: nat, lo: int, hi: int) -> Seq<char> {
    "hint_line "@ + dec(hint as nat) + (if h is Replace {
        ": 'old'"@
    } else {
        ": anchor"@
    }) + " still matches "@ + dec(count) + " locations within window L"@ + dec((lo + 1) as nat)
        + "-L"@ + dec(hi as nat) + (match h {
        Hunk::Replace { .. } => "; add context_before/context_after or a more specific hint"@,
        Hunk::InsertAfter { .. } => "; refine the anchor"@,
        Hunk::InsertBefore { .. } => "; refine the anchor"@,
        _ => ""@,
    })
}

/// What a line hint settles: the only exact match within ten lines of the hint.
/// Nothing when the hunk has no hint or nothing matches there.
pub open spec fn hint_place(text: Seq<char>, h: Hunk) -> Option<Result<LocatedView, ErrorView>> {
    let lines = split_nl(text);
    let total = lines.len() as int;
    let pat = pattern(hinted_text(h));
    let n = pat.len() as int;
    match hint_of(h) {
        None => None,
        Some(hint) => {
            let lo = hint_lo(hint, total);
            let hi = hint_hi(hint, total);
            let near = in_window(exact_hits(lines, pat), lo, hi);
            if lo >= hi || near.len() == 0 {
                None
            } else if near.len() > 1 {
                Some(
                    Err(
                        ErrorView::Ambiguous {
                            candidates: candidates_at(lines, pat, near, n, SCORE_ONE as nat, 1),
                            detail: hint_detail(h, hint, near.len(), lo, hi),
                        },
                    ),
                )
            } else {
                let l = place(
                    text,
                    near[0] as int,
                    n,
                    4,
                    SCORE_ONE as nat,
                    "hint_line "@ + dec(hint as nat) + " (window, exact)"@,
                );
                let settled = Some(
                    Ok(LocatedView { hint_line: Some(hint as usize), ..l }),
                );
                match h {
                    Hunk::ReplaceInline { old, regex, .. } => {
                        if regex && regex_error(old@) is Some {
                            Some(Err(ErrorView::InvalidRegex(regex_error(old@)->0)))
                        } else if !window_holds(lines_of(text, l), old@, regex) {
                            None
                        } else {
                            settled
                        }
                    },
                    _ => settled,
                }
            }
        },
    }
}

fn hint_ambiguous(
    hunk: &Hunk,
    hint: usize,
    count: usize,
    lo: usize,
    hi: usize,
) -> (out: String)
    requires
        lo < usize::MAX,
    ensures
        out@ == hint_detail(*hunk, hint as int, count as nat, lo as int, hi as int),
{
    let subject: &str = match hunk {
        Hunk::Replace { .. } => ": 'old'",
        _ => ": anchor",
    };
    let advice: &str = match hunk {
        Hunk::Replace { .. } => "; add context_before/context_after or a more specific hint",
        Hunk::InsertAfter { .. } => "; refine the anchor",
        Hunk::InsertBefore { .. } => "; refine the anchor",
        _ => "",
    };
    let mut out: String = "hint_line ".to_owned();
    out.append(decimal_size(hint).as_str());
    out.append(subject);
    out.append(" still matches ");
    out.append(decimal_size(count).as_str());
    out.append(" locations within window L");
    out.append(decimal_size(lo + 1).as_str());
    out.append("-L");
    out.append(decimal_size(hi).as_str());
    out.append(advice);
    out
}

/// Tries to settle an ambiguous hunk by its line hint.
pub fn locate_with_hint(view: &FileView, hunk: &Hunk) -> (r: Option<Result<Located, LocateError>>)
    requires
        view.wf(),
    ensures
        match r {
            Some(x) => hint_place(view.content@, *hunk) == Some(loc_result(x)),
            None => hint_place(view.content@, *hunk) is None,
        },
        r matches Some(Ok(l)) ==> within(view.content@, l@) && l.win_lines > 0,
{
    let given: Option<usize> = match hunk {
        Hunk::Replace { hint_line, replace_all, .. } => if *replace_all {
            None
        } else {
            *hint_line
        },
        Hunk::InsertAfter { hint_line, .. } => *hint_line,
        Hunk::InsertBefore { hint_line, .. } => *hint_line,
        Hunk::ReplaceInline { hint_line, .. } => *hint_line,
        _ => None,
    };
    let hint: usize = match given {
        Some(n) => if n == 0 {
            1
        } else {
            n
        },
        None => {
            return None;
        },
    };
    let total: usize = view.lines.len();
    let low: usize = if hint <= HINT_WINDOW + 1 {
        0
    } else {
        hint - HINT_WINDOW - 1
    };
    let lo: usize = if low <= total {
        low
    } else {
        total
    };
    let hi: usize = if total >= HINT_WINDOW && hint <= total - HINT_WINDOW {
        hint + HINT_WINDOW
    } else {
        total
    };
    if lo >= hi {
        return None;
    }
    let wanted: &str = match hunk {
        Hunk::Replace { old, .. } => old.as_str(),
        Hunk::InsertAfter { anchor, .. } => anchor.as_str(),
        Hunk::InsertBefore { anchor, .. } => anchor.as_str(),
        Hunk::ReplaceInline { anchor, .. } => anchor.as_str(),
        _ => {
            return None;
        },
    };
    let wanted_chars: Vec<char> = chars_of(wanted);
    let pat: Vec<Vec<char>> = pattern_lines(wanted_chars.as_slice());
    proof {
        assert(views(pat@).len() == pat@.len());
    }
    let near: Vec<usize> = tier1_in_window(view, pat.as_slice(), lo, hi);
    if near.len() == 0 {
        return None;
    }
    proof {
        if pat@.len() == 0 {
            assert(exact_hits(view.all(), views(pat@)).len() == 0);
        }
    }
    if near.len() > 1 {
        return Some(
            Err(
                LocateError::Ambiguous {
                    candidates: make_candidates(
                        view,
                        near.as_slice(),
                        pat.len(),
                        1,
                        SCORE_ONE,
                        pat.as_slice(),
                    ),
                    detail: hint_ambiguous(hunk, hint, near.len(), lo, hi),
                },
            ),
        );
    }
    let mut note: String = "hint_line ".to_owned();
    note.append(decimal_size(hint).as_str());
    note.append(" (window, exact)");
    let mut l: Located = located(view, near[0], pat.len(), 4, SCORE_ONE, note.as_str());
    match hunk {
        Hunk::ReplaceInline { old, regex, .. } => {
            if *regex {
                match regex_check(old.as_str()) {
                    Some(e) => {
                        return Some(Err(LocateError::InvalidRegex(e)));
                    },
                    None => {},
                }
            }
            if !place_holds(view, &l, old.as_str(), *regex) {
                return None;
            }
        },
        _ => {},
    }
    l.hint_line = Some(hint);
    Some(Ok(l))
}

} // verus!
