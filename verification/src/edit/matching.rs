//! The matching tiers: exact lines, indent shape, similarity.

use vstd::prelude::*;

use crate::edit::exact::Share;
use crate::edit::indent::{strip_indent, stripped};
use crate::edit::view::FileView;
use crate::lines::{split_lines, split_nl, views};
use crate::outside::{char_diff, char_steps, equal_total, DiffStep};
use crate::search::same;
use crate::text::{slice_of, string_of};

verus! {

/// The score of a perfect match, where scores are written in billionths.
pub const SCORE_ONE: u64 = 1_000_000_000;

/// The score from which a similar window is taken: 0.85.
pub const T3_THRESHOLD: u64 = 850_000_000;

/// By how much the best window must beat the second best: 0.10.
pub const T3_MARGIN: u64 = 100_000_000;

/// `lines` without the empty lines at its end.
pub open spec fn drop_empty_tail(lines: Seq<Seq<char>>) -> Seq<Seq<char>>
    decreases lines.len(),
{
    if lines.len() > 0 && lines.last().len() == 0 {
        drop_empty_tail(lines.drop_last())
    } else {
        lines
    }
}

/// The lines of a pattern.
pub open spec fn pattern(s: Seq<char>) -> Seq<Seq<char>> {
    drop_empty_tail(split_nl(s))
}

/// The lines of a pattern: those of the text without the empty ones at its end.
pub fn pattern_lines(s: &[char]) -> (out: Vec<Vec<char>>)
    ensures
        views(out@) == pattern(s@),
{
    let mut out: Vec<Vec<char>> = split_lines(s);
    while out.len() > 0 && out[out.len() - 1].len() == 0
        invariant
            drop_empty_tail(views(out@)) == pattern(s@),
        decreases out@.len(),
    {
        let ghost before = out@;
        proof {
            assert(views(before).last() == before[before.len() - 1]@);
        }
        let _dropped: Option<Vec<char>> = out.pop();
        proof {
            assert(views(out@) =~= views(before).drop_last());
        }
    }
    proof {
        if out@.len() > 0 {
            assert(views(out@).last() == out@[out@.len() - 1]@);
        }
    }
    out
}

/// `pat` stands in `lines` at line `s`, line by line.
pub open spec fn exact_at(lines: Seq<Seq<char>>, pat: Seq<Seq<char>>, s: int) -> bool {
    0 <= s && s + pat.len() <= lines.len() && lines.subrange(s, s + pat.len()) == pat
}

/// The lines below `n` at which `pat` stands, in order.
pub open spec fn exact_below(lines: Seq<Seq<char>>, pat: Seq<Seq<char>>, n: int) -> Seq<usize>
    decreases n,
{
    if n <= 0 {
        Seq::<usize>::empty()
    } else if exact_at(lines, pat, n - 1) {
        exact_below(lines, pat, n - 1).push((n - 1) as usize)
    } else {
        exact_below(lines, pat, n - 1)
    }
}

/// All lines at which `pat` stands; an empty pattern stands nowhere.
pub open spec fn exact_hits(lines: Seq<Seq<char>>, pat: Seq<Seq<char>>) -> Seq<usize> {
    if pat.len() == 0 {
        Seq::<usize>::empty()
    } else {
        exact_below(lines, pat, lines.len() as int)
    }
}

/// Every hit is a place where the pattern stands, every such place is a hit, and
/// hits come in ascending order.
pub proof fn exact_hits_are_all_matches(lines: Seq<Seq<char>>, pat: Seq<Seq<char>>)
    requires
        pat.len() > 0,
        lines.len() <= usize::MAX,
    ensures
        forall|s: int|
            0 <= s < lines.len() ==> (exact_at(lines, pat, s) <==> exact_hits(lines, pat).contains(
                s as usize,
            )),
        forall|i: int, j: int|
            0 <= i < j < exact_hits(lines, pat).len() ==> exact_hits(lines, pat)[i] < exact_hits(
                lines,
                pat,
            )[j],
{
    lemma_exact_below(lines, pat, lines.len() as int);
}

proof fn lemma_exact_below(lines: Seq<Seq<char>>, pat: Seq<Seq<char>>, n: int)
    requires
        0 <= n <= lines.len() <= usize::MAX,
    ensures
        forall|s: int|
            0 <= s < n ==> (exact_at(lines, pat, s) <==> exact_below(lines, pat, n).contains(
                s as usize,
            )),
        forall|i: int|
            0 <= i < exact_below(lines, pat, n).len() ==> exact_below(lines, pat, n)[i] < n
                && exact_at(lines, pat, exact_below(lines, pat, n)[i] as int),
        forall|i: int, j: int|
            0 <= i < j < exact_below(lines, pat, n).len() ==> exact_below(lines, pat, n)[i]
                < exact_below(lines, pat, n)[j],
    decreases n,
{
    if n > 0 {
        lemma_exact_below(lines, pat, n - 1);
        let rest = exact_below(lines, pat, n - 1);
        let all = exact_below(lines, pat, n);
        assert forall|s: int| 0 <= s < n implies (exact_at(lines, pat, s) <==> all.contains(
            s as usize,
        )) by {
            if s < n - 1 {
                if rest.contains(s as usize) {
                    let k = choose|k: int| 0 <= k < rest.len() && rest[k] == s as usize;
                    assert(all[k] == s as usize);
                }
                if all.contains(s as usize) {
                    let k = choose|k: int| 0 <= k < all.len() && all[k] == s as usize;
                    if k < rest.len() {
                        assert(rest[k] == s as usize);
                    }
                }
            } else {
                if exact_at(lines, pat, s) {
                    assert(all[all.len() - 1] == s as usize);
                }
                if all.contains(s as usize) {
                    let k = choose|k: int| 0 <= k < all.len() && all[k] == s as usize;
                    if k < rest.len() {
                        assert(rest[k] < n - 1);
                    }
                }
            }
        }
    }
}

/// Where every hit of a list lies: within the file.
pub proof fn lemma_exact_hits_fit(lines: Seq<Seq<char>>, pat: Seq<Seq<char>>, i: int)
    requires
        lines.len() <= usize::MAX,
        0 <= i < exact_hits(lines, pat).len(),
    ensures
        exact_at(lines, pat, exact_hits(lines, pat)[i] as int),
{
    lemma_exact_below(lines, pat, lines.len() as int);
}

fn lines_equal_at(lines: &[Vec<char>], pat: &[Vec<char>], s: usize) -> (r: bool)
    ensures
        r == exact_at(views(lines@), views(pat@), s as int),
{
    if pat.len() > lines.len() || s > lines.len() - pat.len() {
        return false;
    }
    let ghost l = views(lines@);
    let ghost p = views(pat@);
    let n: usize = lines.len();
    let mut k: usize = 0;
    while k < pat.len()
        invariant
            k <= pat@.len(),
            s + pat@.len() <= lines@.len() == n,
            l == views(lines@),
            p == views(pat@),
            forall|j: int| 0 <= j < k ==> l[s + j] == p[j],
        decreases pat@.len() - k,
    {
        proof {
            assert(l[s + k] == lines@[s + k]@);
            assert(p[k as int] == pat@[k as int]@);
        }
        if !same(lines[s + k].as_slice(), pat[k].as_slice()) {
            proof {
                assert(l.subrange(s as int, s + p.len())[k as int] == l[s + k]);
            }
            return false;
        }
        k = k + 1;
    }
    proof {
        assert(l.subrange(s as int, s + p.len()) =~= p);
    }
    true
}

/// Tier 1: all lines at which the pattern stands exactly.
pub fn tier1(view: &FileView, pat: &[Vec<char>]) -> (out: Vec<usize>)
    requires
        view.wf(),
    ensures
        out@ == exact_hits(view.all(), views(pat@)),
{
    let mut out: Vec<usize> = Vec::new();
    if pat.len() == 0 {
        return out;
    }
    let mut s: usize = 0;
    while s < view.lines.len()
        invariant
            view.wf(),
            s <= view.lines@.len(),
            out@ == exact_below(view.all(), views(pat@), s as int),
        decreases view.lines@.len() - s,
    {
        if lines_equal_at(view.lines.as_slice(), pat, s) {
            out.push(s);
        }
        s = s + 1;
    }
    out
}

/// The window of `n` lines at `s` has the given shape.
pub open spec fn shape_at(lines: Seq<Seq<char>>, shape: Seq<Seq<char>>, s: int) -> bool {
    0 <= s && s + shape.len() <= lines.len() && stripped(lines.subrange(s, s + shape.len())) == shape
}

/// The lines below `n` at which a window has the given shape, in order.
pub open spec fn shape_below(lines: Seq<Seq<char>>, shape: Seq<Seq<char>>, n: int) -> Seq<usize>
    decreases n,
{
    if n <= 0 {
        Seq::<usize>::empty()
    } else if shape_at(lines, shape, n - 1) {
        shape_below(lines, shape, n - 1).push((n - 1) as usize)
    } else {
        shape_below(lines, shape, n - 1)
    }
}

/// All lines at which a window has the shape of `pat`.
pub open spec fn shape_hits(lines: Seq<Seq<char>>, pat: Seq<Seq<char>>) -> Seq<usize> {
    if pat.len() == 0 {
        Seq::<usize>::empty()
    } else {
        shape_below(lines, stripped(pat), lines.len() as int)
    }
}

proof fn lemma_shape_below(lines: Seq<Seq<char>>, shape: Seq<Seq<char>>, n: int)
    requires
        0 <= n <= lines.len() <= usize::MAX,
    ensures
        forall|i: int|
            0 <= i < shape_below(lines, shape, n).len() ==> shape_below(lines, shape, n)[i] < n
                && shape_at(lines, shape, shape_below(lines, shape, n)[i] as int),
    decreases n,
{
    if n > 0 {
        lemma_shape_below(lines, shape, n - 1);
        let rest = shape_below(lines, shape, n - 1);
        let all = shape_below(lines, shape, n);
        assert forall|i: int| 0 <= i < all.len() implies all[i] < n && shape_at(
            lines,
            shape,
            all[i] as int,
        ) by {
            if i < rest.len() {
                assert(all[i] == rest[i]);
            }
        }
    }
}

/// Where every shape hit lies: within the file.
pub proof fn lemma_shape_hits_fit(lines: Seq<Seq<char>>, pat: Seq<Seq<char>>, i: int)
    requires
        lines.len() <= usize::MAX,
        0 <= i < shape_hits(lines, pat).len(),
    ensures
        shape_hits(lines, pat)[i] + pat.len() <= lines.len(),
{
    lemma_shape_below(lines, stripped(pat), lines.len() as int);
}

fn all_same(a: &[Vec<char>], b: &[Vec<char>]) -> (r: bool)
    ensures
        r == (views(a@) == views(b@)),
{
    if a.len() != b.len() {
        proof {
            assert(views(a@).len() != views(b@).len());
        }
        return false;
    }
    let r: bool = lines_equal_at(a, b, 0);
    proof {
        assert(views(a@).subrange(0, views(a@).len() as int) =~= views(a@));
    }
    r
}

/// A copy of the lines `s..s + win`.
pub fn window_of(lines: &[Vec<char>], s: usize, win: usize) -> (out: Vec<Vec<char>>)
    requires
        s + win <= lines@.len(),
    ensures
        views(out@) == views(lines@).subrange(s as int, s + win),
{
    let n: usize = lines.len();
    let mut out: Vec<Vec<char>> = Vec::new();
    let mut k: usize = 0;
    while k < win
        invariant
            k <= win,
            s + win <= lines@.len() == n,
            out@.len() == k,
            forall|j: int| 0 <= j < k ==> #[trigger] out@[j]@ == lines@[s + j]@,
        decreases win - k,
    {
        let l: &Vec<char> = &lines[s + k];
        proof {
            assert(l@.subrange(0, l@.len() as int) =~= l@);
        }
        out.push(slice_of(l.as_slice(), 0, l.len()));
        k = k + 1;
    }
    proof {
        assert(views(out@) =~= views(lines@).subrange(s as int, s + win));
    }
    out
}

/// Tier 2: all lines at which a window has the pattern's shape.
pub fn tier2(view: &FileView, pat: &[Vec<char>]) -> (out: Vec<usize>)
    requires
        view.wf(),
    ensures
        out@ == shape_hits(view.all(), views(pat@)),
{
    let mut out: Vec<usize> = Vec::new();
    if pat.len() == 0 {
        return out;
    }
    let shape: Vec<Vec<char>> = strip_indent(pat);
    proof {
        assert(views(shape@).len() == views(pat@).len());
    }
    let mut s: usize = 0;
    let n: usize = view.lines.len();
    let ghost all = view.all();
    while s < n
        invariant
            view.wf(),
            all == view.all(),
            all == views(view.lines@),
            n == view.lines@.len(),
            s <= n,
            views(shape@).len() == shape@.len(),
            out@ == shape_below(all, views(shape@), s as int),
        decreases n - s,
    {
        if shape.len() <= n && s <= n - shape.len() {
            let w: Vec<Vec<char>> = window_of(view.lines.as_slice(), s, shape.len());
            let ws: Vec<Vec<char>> = strip_indent(w.as_slice());
            if all_same(ws.as_slice(), shape.as_slice()) {
                out.push(s);
            }
        }
        s = s + 1;
    }
    out
}

/// How alike two texts are: twice the characters in equal stretches over the sum of the
/// lengths; two empty texts are equal.
pub open spec fn ratio_of(a: Seq<char>, b: Seq<char>) -> Share {
    if a.len() + b.len() == 0 {
        Share { num: 1, den: 1 }
    } else {
        ratio_from(char_steps(a, b), a.len() + b.len())
    }
}

/// The share of a diff's equal stretches in a total length.
pub open spec fn ratio_from(steps: Seq<DiffStep>, total: nat) -> Share {
    Share { num: (2 * equal_total(steps)) as u128, den: total as u128 }
}

/// Adds up the equal stretches of a diff.
pub fn ratio_of_steps(steps: &[DiffStep], total: u128) -> (r: Share)
    requires
        0 < total <= 2 * usize::MAX,
        2 * equal_total(steps@) <= total,
    ensures
        r == ratio_from(steps@, total as nat),
        r.wf(),
{
    let mut matched: usize = 0;
    let mut i: usize = 0;
    proof {
        assert(steps@.take(0) =~= Seq::<DiffStep>::empty());
    }
    while i < steps.len()
        invariant
            i <= steps@.len(),
            2 * equal_total(steps@) <= total <= 2 * usize::MAX,
            matched == equal_total(steps@.take(i as int)),
        decreases steps@.len() - i,
    {
        proof {
            assert(steps@.take(i + 1).drop_last() =~= steps@.take(i as int));
            lemma_equal_prefix(steps@, i + 1);
        }
        if steps[i].equal {
            matched = matched + steps[i].old_len;
        }
        i = i + 1;
    }
    proof {
        assert(steps@.take(steps@.len() as int) =~= steps@);
    }
    Share { num: 2 * (matched as u128), den: total }
}

proof fn lemma_equal_prefix(steps: Seq<DiffStep>, i: int)
    requires
        0 <= i <= steps.len(),
    ensures
        equal_total(steps.take(i)) <= equal_total(steps),
    decreases steps.len(),
{
    if i == steps.len() {
        assert(steps.take(i) =~= steps);
    } else {
        lemma_equal_prefix(steps.drop_last(), i);
        assert(steps.drop_last().take(i) =~= steps.take(i));
    }
}

/// How alike two texts are.
pub fn ratio(a: &[char], b: &[char]) -> (r: Share)
    ensures
        r == ratio_of(a@, b@),
        r.wf(),
{
    let total: u128 = a.len() as u128 + b.len() as u128;
    if total == 0 {
        return Share { num: 1, den: 1 };
    }
    let x: String = string_of(a);
    let y: String = string_of(b);
    let steps: Vec<DiffStep> = char_diff(x.as_str(), y.as_str());
    ratio_of_steps(steps.as_slice(), total)
}

/// The lines right before `s` are `before`, those right after the window `after`.
pub open spec fn context_at(
    lines: Seq<Seq<char>>,
    s: int,
    win: int,
    before: Seq<Seq<char>>,
    after: Seq<Seq<char>>,
) -> bool {
    exact_at(lines, before, s - before.len()) && exact_at(lines, after, s + win)
}

/// The candidates whose surroundings are the given context.
pub open spec fn in_context(
    lines: Seq<Seq<char>>,
    cands: Seq<usize>,
    win: int,
    before: Seq<Seq<char>>,
    after: Seq<Seq<char>>,
) -> Seq<usize>
    decreases cands.len(),
{
    if cands.len() == 0 {
        Seq::<usize>::empty()
    } else {
        let rest = in_context(lines, cands.drop_last(), win, before, after);
        if context_at(lines, cands.last() as int, win, before, after) {
            rest.push(cands.last())
        } else {
            rest
        }
    }
}

/// Keeps the candidates whose surroundings are the given context.
pub fn context_filter(
    view: &FileView,
    cands: &[usize],
    win: usize,
    before: &[Vec<char>],
    after: &[Vec<char>],
) -> (out: Vec<usize>)
    requires
        view.wf(),
        forall|i: int| 0 <= i < cands@.len() ==> #[trigger] cands@[i] + win <= view.all().len(),
    ensures
        out@ == in_context(view.all(), cands@, win as int, views(before@), views(after@)),
{
    let mut out: Vec<usize> = Vec::new();
    let mut i: usize = 0;
    let n: usize = view.lines.len();
    proof {
        assert(cands@.take(0) =~= Seq::<usize>::empty());
    }
    while i < cands.len()
        invariant
            view.wf(),
            n == view.lines@.len(),
            view.all() == views(view.lines@),
            i <= cands@.len(),
            forall|i: int| 0 <= i < cands@.len() ==> #[trigger] cands@[i] + win <= view.all().len(),
            out@ == in_context(
                view.all(),
                cands@.take(i as int),
                win as int,
                views(before@),
                views(after@),
            ),
        decreases cands@.len() - i,
    {
        let s: usize = cands[i];
        proof {
            assert(cands@.take(i + 1).drop_last() =~= cands@.take(i as int));
            assert(s + win <= n);
        }
        let b_ok: bool = s >= before.len() && lines_equal_at(
            view.lines.as_slice(),
            before,
            s - before.len(),
        );
        let a_ok: bool = lines_equal_at(view.lines.as_slice(), after, s + win);
        if b_ok && a_ok {
            out.push(s);
        }
        i = i + 1;
    }
    proof {
        assert(cands@.take(cands@.len() as int) =~= cands@);
    }
    out
}

/// An empty context is met everywhere.
pub proof fn empty_context_is_met(lines: Seq<Seq<char>>, s: int, win: int)
    requires
        0 <= s,
        0 <= win,
        s + win <= lines.len(),
    ensures
        context_at(lines, s, win, Seq::<Seq<char>>::empty(), Seq::<Seq<char>>::empty()),
{
    let e = Seq::<Seq<char>>::empty();
    assert(lines.subrange(s, s) =~= e);
    assert(lines.subrange(s + win, s + win) =~= e);
}

} // verus!
