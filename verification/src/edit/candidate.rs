//! Candidates: the places reported when a hunk could not be placed.

use vstd::prelude::*;

use crate::edit::exact::Score;
use crate::edit::matching::window_of;
use crate::edit::view::FileView;
use crate::file_shared::{CANDIDATE_MAX, SNIPPET_MAX};
use crate::format::{chars_fitting, fitting};
use crate::lines::{extend, join, join_parts, nl, views};
use crate::search::same;
use crate::text::{chars_of, string_of, trim_end, trim_end_of};

verus! {

/// A place that a hunk might have meant.
#[derive(Debug, PartialEq, Eq)]
pub struct Candidate {
    /// First and last line, 1-based.
    pub line_range: (usize, usize),
    /// The lines, cut short.
    pub snippet: String,
    /// The similarity in billionths, rounded down.
    pub score: u64,
    pub tier: u8,
    /// The pattern and the lines side by side, marked `-` and `+`.
    pub diff: String,
}

/// What a candidate says.
#[verifier::ext_equal]
pub struct CandidateView {
    pub first: int,
    pub last: int,
    pub snippet: Seq<char>,
    pub score: nat,
    pub tier: int,
    pub diff: Seq<char>,
}

impl View for Candidate {
    type V = CandidateView;

    open spec fn view(&self) -> CandidateView {
        CandidateView {
            first: self.line_range.0 as int,
            last: self.line_range.1 as int,
            snippet: self.snippet@,
            score: self.score as nat,
            tier: self.tier as int,
            diff: self.diff@,
        }
    }
}

/// What a list of candidates says.
pub open spec fn cand_views(v: Seq<Candidate>) -> Seq<CandidateView> {
    Seq::new(v.len(), |i: int| v[i]@)
}

/// A place with its score: `win` lines from line `start` on.
#[derive(Debug, Clone, Copy, PartialEq, Eq, Structural)]
pub struct Scored {
    pub score: Score,
    pub start: usize,
    pub win: usize,
}

/// A text cut to whole characters within the snippet limit, with an ellipsis when
/// something was cut.
pub open spec fn snippet(t: Seq<char>) -> Seq<char> {
    let k = fitting(t, SNIPPET_MAX as nat) as int;
    if k < t.len() {
        t.take(k).push('…')
    } else {
        t
    }
}

/// One row of the side-by-side listing.
pub open spec fn row(p: Seq<char>, c: Seq<char>) -> Seq<char> {
    if p == c {
        "    "@ + c + nl()
    } else {
        "  - "@ + p + nl() + ("  + "@ + c + nl())
    }
}

/// The first `i` rows of the side-by-side listing.
pub open spec fn rows(pat: Seq<Seq<char>>, cand: Seq<Seq<char>>, i: int) -> Seq<char>
    decreases i,
{
    if i <= 0 {
        Seq::<char>::empty()
    } else {
        rows(pat, cand, i - 1) + row(pat[i - 1], cand[i - 1])
    }
}

/// The lines `from..to` with a mark before each.
pub open spec fn marked(mark: Seq<char>, lines: Seq<Seq<char>>, from: int, to: int) -> Seq<char>
    decreases to - from,
{
    if to <= from {
        Seq::<char>::empty()
    } else {
        marked(mark, lines, from, to - 1) + (mark + lines[to - 1] + nl())
    }
}

/// The pattern and a candidate side by side; what one has more of comes last.
pub open spec fn side_by_side(pat: Seq<Seq<char>>, cand: Seq<Seq<char>>) -> Seq<char> {
    let n = if pat.len() <= cand.len() { pat.len() as int } else { cand.len() as int };
    trim_end(
        rows(pat, cand, n) + marked("  + "@, cand, n, cand.len() as int) + marked(
            "  - "@,
            pat,
            n,
            pat.len() as int,
        ),
    )
}

/// The candidate for a window of the file.
pub open spec fn candidate_at(
    lines: Seq<Seq<char>>,
    pat: Seq<Seq<char>>,
    s: int,
    win: int,
    score: nat,
    tier: int,
) -> CandidateView {
    let w = lines.subrange(s, s + win);
    CandidateView {
        first: s + 1,
        last: s + win,
        snippet: snippet(join(w, nl())),
        score,
        tier,
        diff: side_by_side(pat, w),
    }
}

/// Cuts a text to the snippet limit.
pub fn snippet_chars(t: &[char]) -> (out: Vec<char>)
    ensures
        out@ == snippet(t@),
{
    let k: usize = chars_fitting(t, SNIPPET_MAX as u128);
    let mut out: Vec<char> = crate::text::slice_of(t, 0, k);
    proof {
        assert(t@.subrange(0, k as int) =~= t@.take(k as int));
    }
    if k < t.len() {
        out.push('…');
    } else {
        proof {
            assert(t@.take(k as int) =~= t@);
        }
    }
    out
}

fn push_marked(out: &mut Vec<char>, mark: &str, line: &[char])
    ensures
        final(out)@ == old(out)@ + (mark@ + line@ + nl()),
{
    let ghost before = out@;
    let m: Vec<char> = chars_of(mark);
    extend(out, m.as_slice());
    extend(out, line);
    out.push('\n');
    proof {
        assert(out@ =~= before + (mark@ + line@ + nl()));
    }
}

/// Lists the pattern and a candidate side by side.
pub fn pattern_vs_candidate(pat: &[Vec<char>], cand: &[Vec<char>]) -> (out: String)
    ensures
        out@ == side_by_side(views(pat@), views(cand@)),
{
    let mut out: Vec<char> = Vec::new();
    let n: usize = if pat.len() <= cand.len() { pat.len() } else { cand.len() };
    let ghost p = views(pat@);
    let ghost c = views(cand@);
    let mut i: usize = 0;
    while i < n
        invariant
            i <= n,
            n <= pat@.len(),
            n <= cand@.len(),
            p == views(pat@),
            c == views(cand@),
            out@ == rows(p, c, i as int),
        decreases n - i,
    {
        let ghost before = out@;
        proof {
            assert(p[i as int] == pat@[i as int]@);
            assert(c[i as int] == cand@[i as int]@);
        }
        if same(pat[i].as_slice(), cand[i].as_slice()) {
            push_marked(&mut out, "    ", cand[i].as_slice());
        } else {
            push_marked(&mut out, "  - ", pat[i].as_slice());
            push_marked(&mut out, "  + ", cand[i].as_slice());
            proof {
                assert(out@ =~= before + row(p[i as int], c[i as int]));
            }
        }
        i = i + 1;
    }
    let ghost base = out@;
    let mut j: usize = n;
    proof {
        assert(base + marked("  + "@, c, n as int, n as int) =~= base);
    }
    while j < cand.len()
        invariant
            n <= j <= cand@.len(),
            c == views(cand@),
            out@ == base + marked("  + "@, c, n as int, j as int),
        decreases cand@.len() - j,
    {
        proof {
            assert(c[j as int] == cand@[j as int]@);
        }
        push_marked(&mut out, "  + ", cand[j].as_slice());
        j = j + 1;
        proof {
            assert(out@ =~= base + marked("  + "@, c, n as int, j as int));
        }
    }
    let ghost base2 = out@;
    let mut k: usize = n;
    proof {
        assert(base2 + marked("  - "@, p, n as int, n as int) =~= base2);
    }
    while k < pat.len()
        invariant
            n <= k <= pat@.len(),
            p == views(pat@),
            out@ == base2 + marked("  - "@, p, n as int, k as int),
        decreases pat@.len() - k,
    {
        proof {
            assert(p[k as int] == pat@[k as int]@);
        }
        push_marked(&mut out, "  - ", pat[k].as_slice());
        k = k + 1;
        proof {
            assert(out@ =~= base2 + marked("  - "@, p, n as int, k as int));
        }
    }
    let t: Vec<char> = trim_end_of(out.as_slice());
    string_of(t.as_slice())
}

/// The candidate for a window of the file.
pub fn make_candidate(
    view: &FileView,
    pat: &[Vec<char>],
    s: usize,
    win: usize,
    score: u64,
    tier: u8,
) -> (c: Candidate)
    requires
        view.wf(),
        s < usize::MAX,
        s + win <= view.all().len(),
    ensures
        c@ == candidate_at(view.all(), views(pat@), s as int, win as int, score as nat, tier as int),
{
    let n: usize = view.lines.len();
    let w: Vec<Vec<char>> = window_of(view.lines.as_slice(), s, win);
    let newline: Vec<char> = vec!['\n'];
    let t: Vec<char> = join_parts(w.as_slice(), newline.as_slice());
    proof {
        assert(newline@ =~= nl());
    }
    let sn: Vec<char> = snippet_chars(t.as_slice());
    Candidate {
        line_range: (s + 1, s + win),
        snippet: string_of(sn.as_slice()),
        score,
        tier,
        diff: pattern_vs_candidate(pat, w.as_slice()),
    }
}

/// The candidates for windows of one size: the first few of the positions.
pub open spec fn candidates_at(
    lines: Seq<Seq<char>>,
    pat: Seq<Seq<char>>,
    positions: Seq<usize>,
    win: int,
    score: nat,
    tier: int,
) -> Seq<CandidateView> {
    let n = if positions.len() <= CANDIDATE_MAX { positions.len() } else { CANDIDATE_MAX as nat };
    Seq::new(n, |i: int| candidate_at(lines, pat, positions[i] as int, win, score, tier))
}

/// The candidates for windows of one size: the first few of the positions.
pub fn make_candidates(
    view: &FileView,
    positions: &[usize],
    win: usize,
    tier: u8,
    score: u64,
    pat: &[Vec<char>],
) -> (out: Vec<Candidate>)
    requires
        view.wf(),
        win > 0,
        forall|i: int|
            0 <= i < positions@.len() ==> #[trigger] positions@[i] + win <= view.all().len(),
    ensures
        cand_views(out@) == candidates_at(
            view.all(),
            views(pat@),
            positions@,
            win as int,
            score as nat,
            tier as int,
        ),
{
    let n: usize = if positions.len() <= CANDIDATE_MAX { positions.len() } else { CANDIDATE_MAX };
    let total: usize = view.lines.len();
    let ghost spec = candidates_at(
        view.all(),
        views(pat@),
        positions@,
        win as int,
        score as nat,
        tier as int,
    );
    let mut out: Vec<Candidate> = Vec::new();
    let mut i: usize = 0;
    while i < n
        invariant
            view.wf(),
            win > 0,
            i <= n <= positions@.len(),
            n == spec.len(),
            total == view.all().len(),
            spec == candidates_at(
                view.all(),
                views(pat@),
                positions@,
                win as int,
                score as nat,
                tier as int,
            ),
            forall|i: int|
                0 <= i < positions@.len() ==> #[trigger] positions@[i] + win <= view.all().len(),
            out@.len() == i,
            forall|k: int| 0 <= k < i ==> #[trigger] out@[k]@ == spec[k],
        decreases n - i,
    {
        let s: usize = positions[i];
        let c: Candidate = make_candidate(view, pat, s, win, score, tier);
        out.push(c);
        i = i + 1;
    }
    proof {
        assert(cand_views(out@) =~= spec);
    }
    out
}

} // verus!
