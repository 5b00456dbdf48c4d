//! Locating hunks: where in a file each one belongs, or why it cannot be placed.

use vstd::prelude::*;

use crate::edit::candidate::{cand_views, candidates_at, make_candidates, Candidate, CandidateView, Scored};
use crate::edit::matching::{
    context_filter, exact_hits, in_context, lemma_exact_hits_fit, lemma_shape_hits_fit, pattern,
    pattern_lines, shape_hits, tier1, tier2, SCORE_ONE,
};
use crate::edit::score::{
    all_scores, fixed2, in_file, no_match_detail, no_match_text, probe_windows, rank, render_score, score_windows,
    scored_candidates, scored_windows, tier3_candidates, verdict, Tier3Probe,
};
use crate::edit::view::{start_of, FileView};
use crate::format::{dec, decimal_size};
use crate::lines::{split_nl, views};
use crate::text::chars_of;

verus! {

/// How far a line hint reaches in either direction.
pub const HINT_WINDOW: usize = 10;

/// A place in a file: `win_lines` lines from `start_line` on, or an insertion
/// point when there are none.
#[derive(Debug, PartialEq, Eq)]
pub struct Located {
    pub start_char: usize,
    pub end_char: usize,
    /// First line, 0-based.
    pub start_line: usize,
    pub win_lines: usize,
    pub tier: u8,
    /// The similarity, in billionths.
    pub score: u64,
    pub note: String,
    /// The 1-based line hint that settled the place, if one did.
    pub hint_line: Option<usize>,
}

/// What a place says.
#[verifier::ext_equal]
pub struct LocatedView {
    pub start_char: int,
    pub end_char: int,
    pub start_line: int,
    pub win_lines: int,
    pub tier: int,
    pub score: nat,
    pub note: Seq<char>,
    pub hint_line: Option<usize>,
}

impl View for Located {
    type V = LocatedView;

    open spec fn view(&self) -> LocatedView {
        LocatedView {
            start_char: self.start_char as int,
            end_char: self.end_char as int,
            start_line: self.start_line as int,
            win_lines: self.win_lines as int,
            tier: self.tier as int,
            score: self.score as nat,
            note: self.note@,
            hint_line: self.hint_line,
        }
    }
}

/// What a list of places says.
pub open spec fn loc_views(v: Seq<Located>) -> Seq<LocatedView> {
    Seq::new(v.len(), |i: int| v[i]@)
}

/// Why a hunk could not be placed.
#[derive(Debug, PartialEq, Eq)]
pub enum LocateError {
    /// Nothing matched well enough.
    NoMatch { candidates: Vec<Candidate>, detail: String },
    /// Several places match.
    Ambiguous { candidates: Vec<Candidate>, detail: String },
    /// The hunk names no text to look for.
    Underspecified,
    /// The regular expression does not compile.
    InvalidRegex(String),
}

/// What a locating error says.
#[verifier::ext_equal]
pub enum ErrorView {
    NoMatch { candidates: Seq<CandidateView>, detail: Seq<char> },
    Ambiguous { candidates: Seq<CandidateView>, detail: Seq<char> },
    Underspecified,
    InvalidRegex(Seq<char>),
}

impl View for LocateError {
    type V = ErrorView;

    open spec fn view(&self) -> ErrorView {
        match *self {
            LocateError::NoMatch { candidates, detail } => ErrorView::NoMatch {
                candidates: cand_views(candidates@),
                detail: detail@,
            },
            LocateError::Ambiguous { candidates, detail } => ErrorView::Ambiguous {
                candidates: cand_views(candidates@),
                detail: detail@,
            },
            LocateError::Underspecified => ErrorView::Underspecified,
            LocateError::InvalidRegex(e) => ErrorView::InvalidRegex(e@),
        }
    }
}

/// A place lies within the text.
pub open spec fn within(text: Seq<char>, l: LocatedView) -> bool {
    &&& 0 <= l.start_line
    &&& 0 <= l.win_lines
    &&& l.start_line + l.win_lines <= split_nl(text).len()
    &&& 0 <= l.start_char <= l.end_char <= text.len()
    &&& l.win_lines > 0 ==> l.start_char == start_of(text, l.start_line) && l.end_char == start_of(
        text,
        l.start_line + l.win_lines,
    )
}

/// The place of `win` lines from line `s` on.
pub open spec fn place(
    text: Seq<char>,
    s: int,
    win: int,
    tier: int,
    score: nat,
    note: Seq<char>,
) -> LocatedView {
    LocatedView {
        start_char: start_of(text, s),
        end_char: start_of(text, s + win),
        start_line: s,
        win_lines: win,
        tier,
        score,
        note,
        hint_line: None,
    }
}

/// The place of `win` lines from line `s` on.
pub fn located(view: &FileView, s: usize, win: usize, tier: u8, score: u64, note: &str) -> (l: Located)
    requires
        view.wf(),
        s + win <= view.all().len(),
    ensures
        l@ == place(
            view.content@,
            s as int,
            win as int,
            tier as int,
            score as nat,
            note@,
        ),
        within(view.content@, l@),
{
    let range: (usize, usize) = view.char_range(s, win);
    Located {
        start_char: range.0,
        end_char: range.1,
        start_line: s,
        win_lines: win,
        tier,
        score,
        note: note.to_owned(),
        hint_line: None,
    }
}

/// The note of a place found by similarity.
pub open spec fn similarity_note(score: nat) -> Seq<char> {
    "similarity "@ + fixed2(score)
}

/// What the similarity tier makes of a pattern: a place or the best candidates.
pub open spec fn by_similarity(
    text: Seq<char>,
    pat: Seq<Seq<char>>,
    before: Seq<Seq<char>>,
    after: Seq<Seq<char>>,
) -> Result<LocatedView, ErrorView> {
    let lines = split_nl(text);
    let all = scored_windows(lines, pat, before, after);
    let probe = verdict(rank(all));
    match probe.hit {
        Some(w) => Ok(
            place(
                text,
                w.start as int,
                w.win as int,
                3,
                w.score.billionths(),
                similarity_note(w.score.billionths()),
            ),
        ),
        None => Err(
            ErrorView::NoMatch {
                candidates: scored_candidates(lines, pat, all),
                detail: no_match_text(probe),
            },
        ),
    }
}

/// Where an anchor stands: the only exact match, else the only match by shape,
/// else a clear winner by similarity.
pub open spec fn anchor_place(text: Seq<char>, anchor: Seq<char>) -> Result<LocatedView, ErrorView> {
    let lines = split_nl(text);
    let pat = pattern(anchor);
    let n = pat.len() as int;
    let exact = exact_hits(lines, pat);
    let shape = shape_hits(lines, pat);
    let one = SCORE_ONE as nat;
    if n == 0 {
        Err(ErrorView::Underspecified)
    } else if exact.len() == 1 {
        Ok(place(text, exact[0] as int, n, 1, one, "exact"@))
    } else if exact.len() > 1 {
        Err(
            ErrorView::Ambiguous {
                candidates: candidates_at(lines, pat, exact, n, one, 1),
                detail: "anchor matches "@ + dec(exact.len()) + " locations"@,
            },
        )
    } else if shape.len() == 1 {
        Ok(place(text, shape[0] as int, n, 2, one, "indent-shape"@))
    } else if shape.len() > 1 {
        Err(
            ErrorView::Ambiguous {
                candidates: candidates_at(lines, pat, shape, n, one, 2),
                detail: "anchor matches "@ + dec(shape.len()) + " locations (indent-shape)"@,
            },
        )
    } else {
        by_similarity(text, pat, Seq::<Seq<char>>::empty(), Seq::<Seq<char>>::empty())
    }
}

/// A located place as its view.
pub open spec fn loc_result(r: Result<Located, LocateError>) -> Result<LocatedView, ErrorView> {
    match r {
        Ok(l) => Ok(l@),
        Err(e) => Err(e@),
    }
}

proof fn lemma_exact_fit(lines: Seq<Seq<char>>, pat: Seq<Seq<char>>)
    requires
        lines.len() <= usize::MAX,
    ensures
        forall|i: int|
            0 <= i < exact_hits(lines, pat).len() ==> (#[trigger] exact_hits(lines, pat)[i])
                + pat.len() <= lines.len(),
{
    assert forall|i: int| 0 <= i < exact_hits(lines, pat).len() implies (#[trigger] exact_hits(
        lines,
        pat,
    )[i]) + pat.len() <= lines.len() by {
        lemma_exact_hits_fit(lines, pat, i);
    }
}

proof fn lemma_shape_fit(lines: Seq<Seq<char>>, pat: Seq<Seq<char>>)
    requires
        lines.len() <= usize::MAX,
    ensures
        forall|i: int|
            0 <= i < shape_hits(lines, pat).len() ==> (#[trigger] shape_hits(lines, pat)[i])
                + pat.len() <= lines.len(),
{
    assert forall|i: int| 0 <= i < shape_hits(lines, pat).len() implies (#[trigger] shape_hits(
        lines,
        pat,
    )[i]) + pat.len() <= lines.len() by {
        lemma_shape_hits_fit(lines, pat, i);
    }
}

proof fn lemma_rank_member(all: Seq<Scored>, n: int)
    requires
        forall|i: int| 0 <= i < all.len() ==> in_file(#[trigger] all[i], n),
    ensures
        rank(all).best matches Some(w) ==> in_file(w, n),
    decreases all.len(),
{
    if all.len() > 0 {
        let front = all.drop_last();
        assert forall|i: int| 0 <= i < front.len() implies in_file(#[trigger] front[i], n) by {
            assert(front[i] == all[i]);
        }
        lemma_rank_member(front, n);
    }
}

/// Tier 3: takes a clear winner by similarity, or reports the best candidates.
fn locate_similar(
    view: &FileView,
    pat: &[Vec<char>],
    before: &[Vec<char>],
    after: &[Vec<char>],
) -> (r: Result<Located, LocateError>)
    requires
        view.wf(),
    ensures
        loc_result(r) == by_similarity(
            view.content@,
            views(pat@),
            views(before@),
            views(after@),
        ),
        r matches Ok(l) ==> within(view.content@, l@) && l.win_lines > 0,
{
    let all: Vec<Scored> = score_windows(view, pat, before, after);
    proof {
        assert(all_scores(all@)) by {
            assert forall|i: int| 0 <= i < all@.len() implies (#[trigger] all@[i]).score.wf() by {
                assert(in_file(all@[i], view.all().len() as int));
            }
        }
        lemma_rank_member(all@, view.all().len() as int);
    }
    let probe: Tier3Probe = probe_windows(all.as_slice());
    match probe.hit {
        Some(w) => {
            let mut note: String = "similarity ".to_owned();
            let score: u64 = w.score.in_billionths();
            note.append(render_score(score).as_str());
            Ok(located(view, w.start, w.win, 3, score, note.as_str()))
        },
        None => Err(
            LocateError::NoMatch {
                candidates: tier3_candidates(view, pat, all),
                detail: no_match_detail(&probe),
            },
        ),
    }
}

fn count_text(front: &str, n: usize, back: &str) -> (out: String)
    ensures
        out@ == front@ + dec(n as nat) + back@,
{
    let mut out: String = front.to_owned();
    out.append(decimal_size(n).as_str());
    out.append(back);
    out
}

/// Locates an anchor.
pub fn locate_anchor(view: &FileView, anchor: &str) -> (r: Result<Located, LocateError>)
    requires
        view.wf(),
    ensures
        loc_result(r) == anchor_place(view.content@, anchor@),
        r matches Ok(l) ==> within(view.content@, l@) && l.win_lines > 0,
{
    let anchor_chars: Vec<char> = chars_of(anchor);
    let pat: Vec<Vec<char>> = pattern_lines(anchor_chars.as_slice());
    let total: usize = view.lines.len();
    proof {
        assert(views(pat@).len() == pat@.len());
        lemma_exact_fit(view.all(), views(pat@));
        lemma_shape_fit(view.all(), views(pat@));
    }
    if pat.len() == 0 {
        return Err(LocateError::Underspecified);
    }
    let exact: Vec<usize> = tier1(view, pat.as_slice());
    if exact.len() == 1 {
        return Ok(located(view, exact[0], pat.len(), 1, SCORE_ONE, "exact"));
    }
    if exact.len() > 1 {
        return Err(
            LocateError::Ambiguous {
                candidates: make_candidates(
                    view,
                    exact.as_slice(),
                    pat.len(),
                    1,
                    SCORE_ONE,
                    pat.as_slice(),
                ),
                detail: count_text("anchor matches ", exact.len(), " locations"),
            },
        );
    }
    let shape: Vec<usize> = tier2(view, pat.as_slice());
    if shape.len() == 1 {
        return Ok(located(view, shape[0], pat.len(), 2, SCORE_ONE, "indent-shape"));
    }
    if shape.len() > 1 {
        return Err(
            LocateError::Ambiguous {
                candidates: make_candidates(
                    view,
                    shape.as_slice(),
                    pat.len(),
                    2,
                    SCORE_ONE,
                    pat.as_slice(),
                ),
                detail: count_text("anchor matches ", shape.len(), " locations (indent-shape)"),
            },
        );
    }
    let none: Vec<Vec<char>> = Vec::new();
    proof {
        assert(views(none@) =~= Seq::<Seq<char>>::empty());
    }
    locate_similar(view, pat.as_slice(), none.as_slice(), none.as_slice())
}

/// An insertion point.
pub open spec fn point(pos: int, tier: int, score: nat, note: Seq<char>) -> LocatedView {
    LocatedView {
        start_char: pos,
        end_char: pos,
        start_line: 0,
        win_lines: 0,
        tier,
        score,
        note,
        hint_line: None,
    }
}

/// Where text goes that is given only by its surroundings: after the first
/// context, else before the second; between the two when both are given and the
/// first does not reach into the second.
pub open spec fn insert_place(
    text: Seq<char>,
    before: Seq<char>,
    after: Seq<char>,
) -> Result<LocatedView, ErrorView> {
    let has_b = pattern(before).len() > 0;
    let has_a = pattern(after).len() > 0;
    if !has_b && !has_a {
        Err(ErrorView::Underspecified)
    } else if has_b && anchor_place(text, before) is Err {
        anchor_place(text, before)
    } else if has_a && anchor_place(text, after) is Err {
        anchor_place(text, after)
    } else if has_b && has_a {
        let b = anchor_place(text, before)->Ok_0;
        let a = anchor_place(text, after)->Ok_0;
        if b.end_char > a.start_char {
            Err(
                ErrorView::Ambiguous {
                    candidates: Seq::<CandidateView>::empty(),
                    detail: "context_before and context_after regions overlap or are inverted"@,
                },
            )
        } else {
            Ok(
                point(
                    b.end_char,
                    if b.tier >= a.tier { b.tier } else { a.tier },
                    if b.score <= a.score { b.score } else { a.score },
                    "pure insert (both contexts)"@,
                ),
            )
        }
    } else if has_b {
        let b = anchor_place(text, before)->Ok_0;
        Ok(point(b.end_char, b.tier, b.score, "pure insert (context_before)"@))
    } else {
        let a = anchor_place(text, after)->Ok_0;
        Ok(point(a.start_char, a.tier, a.score, "pure insert (context_after)"@))
    }
}

fn insertion(pos: usize, tier: u8, score: u64, note: &str) -> (l: Located)
    ensures
        l@ == point(pos as int, tier as int, score as nat, note@),
{
    Located {
        start_char: pos,
        end_char: pos,
        start_line: 0,
        win_lines: 0,
        tier,
        score,
        note: note.to_owned(),
        hint_line: None,
    }
}

/// Locates the point for text that is given only by its surroundings.
pub fn locate_pure_insert(view: &FileView, before: &str, after: &str) -> (r: Result<
    Located,
    LocateError,
>)
    requires
        view.wf(),
    ensures
        loc_result(r) == insert_place(view.content@, before@, after@),
        r matches Ok(l) ==> within(view.content@, l@) && l.win_lines == 0,
{
    let before_chars: Vec<char> = chars_of(before);
    let after_chars: Vec<char> = chars_of(after);
    let b: Vec<Vec<char>> = pattern_lines(before_chars.as_slice());
    let a: Vec<Vec<char>> = pattern_lines(after_chars.as_slice());
    proof {
        assert(views(b@).len() == b@.len());
        assert(views(a@).len() == a@.len());
    }
    if b.len() == 0 && a.len() == 0 {
        return Err(LocateError::Underspecified);
    }
    let b_loc: Option<Located> = if b.len() == 0 {
        None
    } else {
        match locate_anchor(view, before) {
            Ok(l) => Some(l),
            Err(e) => {
                return Err(e);
            },
        }
    };
    let a_loc: Option<Located> = if a.len() == 0 {
        None
    } else {
        match locate_anchor(view, after) {
            Ok(l) => Some(l),
            Err(e) => {
                return Err(e);
            },
        }
    };
    match b_loc {
        Some(bl) => match a_loc {
            Some(al) => {
                if bl.end_char > al.start_char {
                    let none: Vec<Candidate> = Vec::new();
                    proof {
                        assert(cand_views(none@) =~= Seq::<CandidateView>::empty());
                    }
                    return Err(
                        LocateError::Ambiguous {
                            candidates: none,
                            detail: "context_before and context_after regions overlap or are inverted".to_owned(),
                        },
                    );
                }
                let tier: u8 = if bl.tier >= al.tier { bl.tier } else { al.tier };
                let score: u64 = if bl.score <= al.score { bl.score } else { al.score };
                Ok(insertion(bl.end_char, tier, score, "pure insert (both contexts)"))
            },
            None => Ok(insertion(bl.end_char, bl.tier, bl.score, "pure insert (context_before)")),
        },
        None => match a_loc {
            Some(al) => Ok(
                insertion(al.start_char, al.tier, al.score, "pure insert (context_after)"),
            ),
            None => Err(LocateError::Underspecified),
        },
    }
}

/// Where the text of a replacement stands. Exact matches come first, then matches
/// by shape; several are told apart by the context. Only when neither tier finds
/// anything is similarity tried.
pub open spec fn replace_place(
    text: Seq<char>,
    old: Seq<char>,
    before: Seq<char>,
    after: Seq<char>,
) -> Result<LocatedView, ErrorView> {
    let lines = split_nl(text);
    let pat = pattern(old);
    let n = pat.len() as int;
    let b = pattern(before);
    let a = pattern(after);
    let one = SCORE_ONE as nat;
    let exact = exact_hits(lines, pat);
    let exact_ctx = in_context(lines, exact, n, b, a);
    let shape = shape_hits(lines, pat);
    let shape_ctx = in_context(lines, shape, n, b, a);
    if n == 0 {
        insert_place(text, before, after)
    } else if exact.len() == 1 {
        Ok(place(text, exact[0] as int, n, 1, one, "exact"@))
    } else if exact.len() > 1 && exact_ctx.len() == 1 {
        Ok(place(text, exact_ctx[0] as int, n, 1, one, "exact (context)"@))
    } else if exact.len() > 1 {
        Err(
            ErrorView::Ambiguous {
                candidates: candidates_at(lines, pat, exact, n, one, 1),
                detail: "old matches "@ + dec(exact.len())
                    + " locations; context_before/context_after did not disambiguate — pick one by its surrounding lines (see candidates) and add context_before/context_after"@,
            },
        )
    } else if shape.len() == 1 {
        Ok(place(text, shape[0] as int, n, 2, one, "indent-shape"@))
    } else if shape.len() > 1 && shape_ctx.len() == 1 {
        Ok(place(text, shape_ctx[0] as int, n, 2, one, "indent-shape (context)"@))
    } else if shape.len() > 1 {
        Err(
            ErrorView::Ambiguous {
                candidates: candidates_at(lines, pat, shape, n, one, 2),
                detail: "old matches "@ + dec(shape.len())
                    + " locations (indent-shape); context did not disambiguate"@,
            },
        )
    } else {
        by_similarity(text, pat, b, a)
    }
}

proof fn lemma_in_context_member(
    lines: Seq<Seq<char>>,
    cands: Seq<usize>,
    win: int,
    before: Seq<Seq<char>>,
    after: Seq<Seq<char>>,
    max: int,
)
    requires
        forall|i: int| 0 <= i < cands.len() ==> (#[trigger] cands[i]) + win <= max,
    ensures
        forall|i: int|
            0 <= i < in_context(lines, cands, win, before, after).len() ==> (#[trigger] in_context(
                lines,
                cands,
                win,
                before,
                after,
            )[i]) + win <= max,
    decreases cands.len(),
{
    if cands.len() > 0 {
        let front = cands.drop_last();
        assert forall|i: int| 0 <= i < front.len() implies (#[trigger] front[i]) + win <= max by {
            assert(front[i] == cands[i]);
        }
        lemma_in_context_member(lines, front, win, before, after, max);
        let rest = in_context(lines, front, win, before, after);
        let all = in_context(lines, cands, win, before, after);
        assert forall|i: int| 0 <= i < all.len() implies (#[trigger] all[i]) + win <= max by {
            if i < rest.len() {
                assert(all[i] == rest[i]);
            } else {
                assert(all[i] == cands[cands.len() - 1]);
            }
        }
    }
}

/// Locates the text of a replacement through the four tiers.
pub fn locate_replace(view: &FileView, old: &str, before: &str, after: &str) -> (r: Result<
    Located,
    LocateError,
>)
    requires
        view.wf(),
    ensures
        loc_result(r) == replace_place(view.content@, old@, before@, after@),
        r matches Ok(l) ==> within(view.content@, l@),
{
    let old_chars: Vec<char> = chars_of(old);
    let pat: Vec<Vec<char>> = pattern_lines(old_chars.as_slice());
    let total: usize = view.lines.len();
    proof {
        assert(views(pat@).len() == pat@.len());
        lemma_exact_fit(view.all(), views(pat@));
        lemma_shape_fit(view.all(), views(pat@));
    }
    if pat.len() == 0 {
        return locate_pure_insert(view, before, after);
    }
    let before_chars: Vec<char> = chars_of(before);
    let after_chars: Vec<char> = chars_of(after);
    let b: Vec<Vec<char>> = pattern_lines(before_chars.as_slice());
    let a: Vec<Vec<char>> = pattern_lines(after_chars.as_slice());
    let exact: Vec<usize> = tier1(view, pat.as_slice());
    if exact.len() > 0 {
        if exact.len() == 1 {
            return Ok(located(view, exact[0], pat.len(), 1, SCORE_ONE, "exact"));
        }
        let filtered: Vec<usize> = context_filter(
            view,
            exact.as_slice(),
            pat.len(),
            b.as_slice(),
            a.as_slice(),
        );
        proof {
            lemma_in_context_member(
                view.all(),
                exact@,
                pat@.len() as int,
                views(b@),
                views(a@),
                view.all().len() as int,
            );
        }
        if filtered.len() == 1 {
            return Ok(located(view, filtered[0], pat.len(), 1, SCORE_ONE, "exact (context)"));
        }
        return Err(
            LocateError::Ambiguous {
                candidates: make_candidates(
                    view,
                    exact.as_slice(),
                    pat.len(),
                    1,
                    SCORE_ONE,
                    pat.as_slice(),
                ),
                detail: count_text(
                    "old matches ",
                    exact.len(),
                    " locations; context_before/context_after did not disambiguate — pick one by its surrounding lines (see candidates) and add context_before/context_after",
                ),
            },
        );
    }
    let shape: Vec<usize> = tier2(view, pat.as_slice());
    if shape.len() > 0 {
        if shape.len() == 1 {
            return Ok(located(view, shape[0], pat.len(), 2, SCORE_ONE, "indent-shape"));
        }
        let filtered: Vec<usize> = context_filter(
            view,
            shape.as_slice(),
            pat.len(),
            b.as_slice(),
            a.as_slice(),
        );
        proof {
            lemma_in_context_member(
                view.all(),
                shape@,
                pat@.len() as int,
                views(b@),
                views(a@),
                view.all().len() as int,
            );
        }
        if filtered.len() == 1 {
            return Ok(
                located(view, filtered[0], pat.len(), 2, SCORE_ONE, "indent-shape (context)"),
            );
        }
        return Err(
            LocateError::Ambiguous {
                candidates: make_candidates(
                    view,
                    shape.as_slice(),
                    pat.len(),
                    2,
                    SCORE_ONE,
                    pat.as_slice(),
                ),
                detail: count_text(
                    "old matches ",
                    shape.len(),
                    " locations (indent-shape); context did not disambiguate",
                ),
            },
        );
    }
    locate_similar(view, pat.as_slice(), b.as_slice(), a.as_slice())
}

} // verus!
