//! Tier 3: scoring every window of a file against a pattern and its context.

use vstd::prelude::*;

use crate::edit::candidate::{cand_views, candidate_at, make_candidate, Candidate, CandidateView, Scored};
use crate::edit::exact::{no_likeness, nothing, scores_are_ordered, Score, Share};
use crate::edit::indent::{strip_indent, stripped};
use crate::edit::matching::{ratio, ratio_of, window_of, SCORE_ONE, T3_MARGIN, T3_THRESHOLD};
use crate::edit::view::FileView;
use crate::file_shared::CANDIDATE_MAX;
use crate::format::{dec, decimal, digit};
use crate::lines::{join, join_parts, nl, views};

verus! {

/// Some lines without their common indent, as one text.
pub open spec fn joined(lines: Seq<Seq<char>>) -> Seq<char> {
    join(stripped(lines), nl())
}

/// The lines of context that a file has before a window.
pub open spec fn before_window(lines: Seq<Seq<char>>, s: int, len: int) -> Seq<Seq<char>> {
    lines.subrange(if s <= len { 0 } else { s - len }, s)
}

/// The lines of context that a file has after a window.
pub open spec fn after_window(lines: Seq<Seq<char>>, e: int, len: int) -> Seq<Seq<char>> {
    lines.subrange(e, if e + len <= lines.len() { e + len } else { lines.len() as int })
}

/// The score of a window: 0.6 for the pattern and 0.2 for each context that was
/// given, over the sum of the weights.
pub open spec fn score_at(
    lines: Seq<Seq<char>>,
    pat: Seq<Seq<char>>,
    before: Seq<Seq<char>>,
    after: Seq<Seq<char>>,
    s: int,
    win: int,
) -> Score {
    Score {
        old: ratio_of(joined(pat), joined(lines.subrange(s, s + win))),
        before: if before.len() > 0 {
            ratio_of(joined(before), joined(before_window(lines, s, before.len() as int)))
        } else {
            nothing()
        },
        after: if after.len() > 0 {
            ratio_of(joined(after), joined(after_window(lines, s + win, after.len() as int)))
        } else {
            nothing()
        },
        weight: (3 + (if before.len() > 0 { 1int } else { 0 }) + (if after.len() > 0 {
            1int
        } else {
            0
        })) as u64,
    }
}

/// The windows of `win` lines that start below `m`, with their scores.
pub open spec fn scored_below(
    lines: Seq<Seq<char>>,
    pat: Seq<Seq<char>>,
    before: Seq<Seq<char>>,
    after: Seq<Seq<char>>,
    win: int,
    m: int,
) -> Seq<Scored>
    decreases m,
{
    if m <= 0 {
        Seq::<Scored>::empty()
    } else {
        scored_below(lines, pat, before, after, win, m - 1).push(
            Scored {
                score: score_at(lines, pat, before, after, m - 1, win),
                start: (m - 1) as usize,
                win: win as usize,
            },
        )
    }
}

/// The windows of `lo` to `hi` lines, with their scores, smaller windows first.
pub open spec fn scored_sizes(
    lines: Seq<Seq<char>>,
    pat: Seq<Seq<char>>,
    before: Seq<Seq<char>>,
    after: Seq<Seq<char>>,
    lo: int,
    hi: int,
) -> Seq<Scored>
    decreases hi,
{
    if hi < lo || hi <= 0 {
        Seq::<Scored>::empty()
    } else {
        scored_sizes(lines, pat, before, after, lo, hi - 1) + scored_below(
            lines,
            pat,
            before,
            after,
            hi,
            lines.len() - hi + 1,
        )
    }
}

/// The smallest window tried for a pattern of `p` lines.
pub open spec fn smallest(p: int) -> int {
    if p <= 3 {
        1
    } else {
        p - 2
    }
}

/// The largest window tried for a pattern of `p` lines in a file of `n`.
pub open spec fn largest(p: int, n: int) -> int {
    if p + 2 <= n {
        p + 2
    } else {
        n
    }
}

/// All windows tried for a pattern, with their scores.
pub open spec fn scored_windows(
    lines: Seq<Seq<char>>,
    pat: Seq<Seq<char>>,
    before: Seq<Seq<char>>,
    after: Seq<Seq<char>>,
) -> Seq<Scored> {
    let p = pat.len() as int;
    let n = lines.len() as int;
    if p == 0 || p > n + 2 {
        Seq::<Scored>::empty()
    } else {
        scored_sizes(lines, pat, before, after, smallest(p), largest(p, n))
    }
}

/// A window lies within a file of `n` lines and has at least one line.
pub open spec fn in_file(w: Scored, n: int) -> bool {
    0 < w.win && w.start + w.win <= n && w.score.wf()
}

fn joined_of(lines: &[Vec<char>]) -> (out: Vec<char>)
    ensures
        out@ == joined(views(lines@)),
{
    let st: Vec<Vec<char>> = strip_indent(lines);
    let newline: Vec<char> = vec!['\n'];
    proof {
        assert(newline@ =~= nl());
    }
    join_parts(st.as_slice(), newline.as_slice())
}

/// The score of one window.
fn score_window(
    view: &FileView,
    old_s: &[char],
    before_len: usize,
    b_s: &[char],
    after_len: usize,
    a_s: &[char],
    s: usize,
    win: usize,
    Ghost(pat): Ghost<Seq<Seq<char>>>,
    Ghost(before): Ghost<Seq<Seq<char>>>,
    Ghost(after): Ghost<Seq<Seq<char>>>,
) -> (r: Score)
    requires
        view.wf(),
        s + win <= view.all().len(),
        old_s@ == joined(pat),
        b_s@ == joined(before),
        a_s@ == joined(after),
        before_len == before.len(),
        after_len == after.len(),
    ensures
        r == score_at(view.all(), pat, before, after, s as int, win as int),
        r.wf(),
{
    let n: usize = view.lines.len();
    let lines: &[Vec<char>] = view.lines.as_slice();
    let w: Vec<Vec<char>> = window_of(lines, s, win);
    let ws: Vec<char> = joined_of(w.as_slice());
    let mut score: Score = Score {
        old: ratio(old_s, ws.as_slice()),
        before: Share { num: 0, den: 1 },
        after: Share { num: 0, den: 1 },
        weight: 3,
    };
    if before_len > 0 {
        let from: usize = if s <= before_len { 0 } else { s - before_len };
        let c: Vec<Vec<char>> = window_of(lines, from, s - from);
        let cs: Vec<char> = joined_of(c.as_slice());
        score.before = ratio(b_s, cs.as_slice());
        score.weight = score.weight + 1;
    }
    if after_len > 0 {
        let e: usize = s + win;
        let len: usize = if after_len <= n - e { after_len } else { n - e };
        let c: Vec<Vec<char>> = window_of(lines, e, len);
        let cs: Vec<char> = joined_of(c.as_slice());
        score.after = ratio(a_s, cs.as_slice());
        score.weight = score.weight + 1;
    }
    score
}

/// Scores every window that a pattern is tried against.
pub fn score_windows(
    view: &FileView,
    pat: &[Vec<char>],
    before: &[Vec<char>],
    after: &[Vec<char>],
) -> (out: Vec<Scored>)
    requires
        view.wf(),
    ensures
        out@ == scored_windows(view.all(), views(pat@), views(before@), views(after@)),
        forall|i: int| 0 <= i < out@.len() ==> in_file(#[trigger] out@[i], view.all().len() as int),
{
    let n: usize = view.lines.len();
    let p: usize = pat.len();
    let mut out: Vec<Scored> = Vec::new();
    if p == 0 || (p > 2 && p - 2 > n) {
        return out;
    }
    let old_s: Vec<char> = joined_of(pat);
    let b_s: Vec<char> = joined_of(before);
    let a_s: Vec<char> = joined_of(after);
    let lo: usize = if p <= 3 { 1 } else { p - 2 };
    let hi: usize = if n >= 2 && p <= n - 2 { p + 2 } else { n };
    let ghost gp = views(pat@);
    let ghost gb = views(before@);
    let ghost ga = views(after@);
    let ghost all = view.all();
    let mut done: usize = lo - 1;
    proof {
        assert(scored_sizes(all, gp, gb, ga, lo as int, lo - 1) =~= Seq::<Scored>::empty());
    }
    while done < hi
        invariant
            view.wf(),
            all == view.all(),
            n == all.len(),
            gp == views(pat@),
            gb == views(before@),
            ga == views(after@),
            old_s@ == joined(gp),
            b_s@ == joined(gb),
            a_s@ == joined(ga),
            1 <= lo <= done + 1,
            done <= hi <= n,
            out@ == scored_sizes(all, gp, gb, ga, lo as int, done as int),
            forall|i: int| 0 <= i < out@.len() ==> in_file(#[trigger] out@[i], n as int),
        decreases hi - done,
    {
        let win: usize = done + 1;
        let ghost base = out@;
        let last: usize = n - win;
        let mut s: usize = 0;
        proof {
            assert(base + scored_below(all, gp, gb, ga, win as int, 0) =~= base);
        }
        while s <= last
            invariant
                view.wf(),
                all == view.all(),
                n == all.len(),
                gp == views(pat@),
                gb == views(before@),
                ga == views(after@),
                old_s@ == joined(gp),
                b_s@ == joined(gb),
                a_s@ == joined(ga),
                1 <= win <= n,
                last == n - win,
                s <= last + 1,
                out@ == base + scored_below(all, gp, gb, ga, win as int, s as int),
                forall|i: int| 0 <= i < out@.len() ==> in_file(#[trigger] out@[i], n as int),
            decreases last + 1 - s,
        {
            let score: Score = score_window(
                view,
                old_s.as_slice(),
                before.len(),
                b_s.as_slice(),
                after.len(),
                a_s.as_slice(),
                s,
                win,
                Ghost(gp),
                Ghost(gb),
                Ghost(ga),
            );
            out.push(Scored { score, start: s, win });
            s = s + 1;
            proof {
                assert(out@ =~= base + scored_below(all, gp, gb, ga, win as int, s as int));
            }
        }
        done = win;
    }
    out
}

/// The best window of a ranking, and the score of the second best.
#[derive(Debug, Clone, Copy, PartialEq, Eq, Structural)]
pub struct Ranking {
    pub best: Option<Scored>,
    pub second: Score,
}

/// The ranking after one more window: a window takes the lead only by beating it.
pub open spec fn rank_next(r: Ranking, w: Scored) -> Ranking {
    match r.best {
        None => Ranking { best: Some(w), second: r.second },
        Some(b) => {
            if w.score.beats(b.score) {
                Ranking { best: Some(w), second: b.score }
            } else if w.score.beats(r.second) {
                Ranking { best: r.best, second: w.score }
            } else {
                r
            }
        },
    }
}

/// The ranking of a list of windows.
pub open spec fn rank(all: Seq<Scored>) -> Ranking
    decreases all.len(),
{
    if all.len() == 0 {
        Ranking { best: None, second: no_likeness() }
    } else {
        rank_next(rank(all.drop_last()), all.last())
    }
}

/// All scores of a list are fractions between 0 and 1.
pub open spec fn all_scores(all: Seq<Scored>) -> bool {
    forall|i: int| 0 <= i < all.len() ==> (#[trigger] all[i]).score.wf()
}

/// The window at `i` is the best of `all`: nothing before it is as good and nothing after
/// it is better.
pub open spec fn leads(all: Seq<Scored>, i: int) -> bool {
    &&& 0 <= i < all.len()
    &&& forall|j: int| 0 <= j < all.len() ==> !(#[trigger] all[j]).score.beats(all[i].score)
    &&& forall|j: int| 0 <= j < i ==> all[i].score.beats((#[trigger] all[j]).score)
}

/// The ranking holds the earliest window of the highest score, and the highest
/// score among all the others (none when there are none).
pub proof fn ranking_is_the_best_two(all: Seq<Scored>) -> (i: int)
    requires
        all.len() > 0,
        all_scores(all),
    ensures
        leads(all, i),
        rank(all).best == Some(all[i]),
        rank(all).second.wf(),
        forall|j: int|
            0 <= j < all.len() && j != i ==> !(#[trigger] all[j]).score.beats(rank(all).second),
        all.len() == 1 ==> rank(all).second == no_likeness(),
        rank(all).second == no_likeness() || exists|j: int|
            0 <= j < all.len() && j != i && (#[trigger] all[j]).score == rank(all).second,
    decreases all.len(),
{
    let w = all.last();
    let front = all.drop_last();
    let last = all.len() - 1;
    assert(w == all[last] && w.score.wf());
    if front.len() == 0 {
        assert(rank(front) == (Ranking { best: None, second: no_likeness() }));
        0
    } else {
        assert(all_scores(front)) by {
            assert forall|j: int| 0 <= j < front.len() implies (#[trigger] front[j]).score.wf() by {
                assert(front[j] == all[j]);
            }
        }
        let k = ranking_is_the_best_two(front);
        let r = rank(front);
        assert(front[k] == all[k]);
        if w.score.beats(front[k].score) {
            assert(all[k].score == rank(all).second);
            assert forall|j: int| 0 <= j < all.len() && j != last implies !(
            #[trigger] all[j]).score.beats(rank(all).second) by {
                assert(all[j] == front[j]);
            }
            assert forall|j: int| 0 <= j < last implies w.score.beats(
                (#[trigger] all[j]).score,
            ) && !all[j].score.beats(w.score) by {
                assert(all[j] == front[j]);
                scores_are_ordered(all[j].score, all[k].score, w.score);
            }
            last
        } else {
            assert forall|j: int| 0 <= j < all.len() implies !(#[trigger] all[j]).score.beats(
                all[k].score,
            ) by {
                if j < last {
                    assert(all[j] == front[j]);
                }
            }
            assert forall|j: int| 0 <= j < k implies all[k].score.beats(
                (#[trigger] all[j]).score,
            ) by {
                assert(all[j] == front[j]);
            }
            if w.score.beats(r.second) {
                assert(all[last].score == rank(all).second);
            } else if r.second != no_likeness() {
                let j = choose|j: int|
                    0 <= j < front.len() && j != k && (#[trigger] front[j]).score == r.second;
                assert(all[j].score == rank(all).second);
            }
            assert forall|j: int| 0 <= j < all.len() && j != k implies !(
            #[trigger] all[j]).score.beats(rank(all).second) by {
                if j < last {
                    assert(all[j] == front[j]);
                    if w.score.beats(r.second) {
                        scores_are_ordered(all[j].score, r.second, w.score);
                    }
                }
            }
            k
        }
    }
}

/// What the similarity tier found: the window to take, if one clearly wins, and
/// the two best scores.
#[derive(Debug, Clone, Copy, PartialEq, Eq, Structural)]
pub struct Tier3Probe {
    pub hit: Option<Scored>,
    pub best: Score,
    pub second: Score,
}

/// What a ranking leads to: the best window is taken when its score reaches the
/// threshold and leads by the margin.
pub open spec fn verdict(r: Ranking) -> Tier3Probe {
    match r.best {
        None => Tier3Probe { hit: None, best: no_likeness(), second: no_likeness() },
        Some(b) => Tier3Probe {
            hit: if b.score.reaches_threshold() && b.score.leads_clearly(r.second) {
                Some(b)
            } else {
                None
            },
            best: b.score,
            second: r.second,
        },
    }
}

fn no_score() -> (r: Score)
    ensures
        r == no_likeness(),
        r.wf(),
{
    let none: Share = Share { num: 0, den: 1 };
    Score { old: none, before: none, after: none, weight: 3 }
}

/// Ranks the windows and decides whether the best one is taken.
pub fn probe_windows(all: &[Scored]) -> (r: Tier3Probe)
    requires
        all_scores(all@),
    ensures
        r == verdict(rank(all@)),
        r.best.wf(),
        r.second.wf(),
{
    let mut best: Option<Scored> = None;
    let mut second: Score = no_score();
    let mut i: usize = 0;
    proof {
        assert(all@.take(0) =~= Seq::<Scored>::empty());
    }
    while i < all.len()
        invariant
            i <= all@.len(),
            all_scores(all@),
            second.wf(),
            best matches Some(b) ==> b.score.wf(),
            rank(all@.take(i as int)) == (Ranking { best, second }),
        decreases all@.len() - i,
    {
        let w: Scored = all[i];
        proof {
            assert(all@.take(i + 1).drop_last() =~= all@.take(i as int));
            assert(all@.take(i + 1).last() == w);
            assert(all@[i as int] == w);
        }
        match best {
            None => {
                best = Some(w);
            },
            Some(b) => {
                if w.score.is_above(&b.score) {
                    second = b.score;
                    best = Some(w);
                } else if w.score.is_above(&second) {
                    second = w.score;
                }
            },
        }
        i = i + 1;
    }
    proof {
        assert(all@.take(all@.len() as int) =~= all@);
    }
    match best {
        None => Tier3Probe { hit: None, best: no_score(), second: no_score() },
        Some(b) => {
            let wins: bool = b.score.is_high() && b.score.is_clearly_above(&second);
            Tier3Probe {
                hit: if wins {
                    Some(b)
                } else {
                    None
                },
                best: b.score,
                second,
            }
        },
    }
}

/// The earliest place of the highest score.
pub open spec fn first_max(all: Seq<Scored>) -> int
    decreases all.len(),
{
    if all.len() <= 1 {
        0
    } else {
        let k = first_max(all.drop_last());
        if all.last().score.beats(all[k].score) {
            all.len() - 1
        } else {
            k
        }
    }
}

/// The `k` windows of the highest scores, best first, earlier ones first among
/// equals.
pub open spec fn top(all: Seq<Scored>, k: nat) -> Seq<Scored>
    decreases k,
{
    if k == 0 || all.len() == 0 {
        Seq::<Scored>::empty()
    } else {
        let i = first_max(all);
        seq![all[i]] + top(all.remove(i), (k - 1) as nat)
    }
}

proof fn lemma_first_max(all: Seq<Scored>)
    requires
        all.len() > 0,
        all_scores(all),
    ensures
        leads(all, first_max(all)),
    decreases all.len(),
{
    assert(all[0].score.wf());
    if all.len() > 1 {
        let front = all.drop_last();
        let w = all.last();
        assert(w == all[all.len() - 1] && w.score.wf());
        assert(all_scores(front)) by {
            assert forall|j: int| 0 <= j < front.len() implies (#[trigger] front[j]).score.wf() by {
                assert(front[j] == all[j]);
            }
        }
        lemma_first_max(front);
        let k = first_max(front);
        assert(front[k] == all[k]);
        assert forall|j: int| 0 <= j < all.len() implies !(#[trigger] all[j]).score.beats(
            all[first_max(all)].score,
        ) by {
            if j < front.len() {
                assert(all[j] == front[j]);
                if w.score.beats(all[k].score) {
                    scores_are_ordered(all[j].score, all[k].score, w.score);
                }
            }
        }
        assert forall|j: int| 0 <= j < first_max(all) implies all[first_max(all)].score.beats(
            (#[trigger] all[j]).score,
        ) by {
            assert(all[j] == front[j]);
            if w.score.beats(all[k].score) {
                scores_are_ordered(all[j].score, all[k].score, w.score);
            }
        }
    }
}

/// The best of a list comes first among its top windows.
pub proof fn top_starts_with_the_best(all: Seq<Scored>, k: nat)
    requires
        all.len() > 0,
        all_scores(all),
        k > 0,
    ensures
        top(all, k).len() > 0,
        leads(all, first_max(all)),
        top(all, k)[0] == all[first_max(all)],
{
    lemma_first_max(all);
}

fn index_of_max(all: &[Scored]) -> (i: usize)
    requires
        all@.len() > 0,
        all_scores(all@),
    ensures
        i == first_max(all@),
        i < all@.len(),
{
    let mut best: usize = 0;
    let mut i: usize = 1;
    while i < all.len()
        invariant
            1 <= i <= all@.len(),
            all_scores(all@),
            best < i,
            best == first_max(all@.take(i as int)),
        decreases all@.len() - i,
    {
        proof {
            assert(all@.take(i + 1).drop_last() =~= all@.take(i as int));
        }
        if all[i].score.is_above(&all[best].score) {
            best = i;
        }
        i = i + 1;
    }
    proof {
        assert(all@.take(all@.len() as int) =~= all@);
    }
    best
}

/// The candidates of the highest scores.
pub open spec fn scored_candidates(
    lines: Seq<Seq<char>>,
    pat: Seq<Seq<char>>,
    all: Seq<Scored>,
) -> Seq<CandidateView> {
    let t = top(all, CANDIDATE_MAX as nat);
    Seq::new(
        t.len(),
        |i: int|
            candidate_at(
                lines,
                pat,
                t[i].start as int,
                t[i].win as int,
                t[i].score.billionths(),
                3,
            ),
    )
}

/// Lists the windows of the highest scores as candidates.
pub fn tier3_candidates(view: &FileView, pat: &[Vec<char>], all: Vec<Scored>) -> (out: Vec<
    Candidate,
>)
    requires
        view.wf(),
        forall|i: int| 0 <= i < all@.len() ==> in_file(#[trigger] all@[i], view.all().len() as int),
    ensures
        cand_views(out@) == scored_candidates(view.all(), views(pat@), all@),
{
    let mut rest: Vec<Scored> = all;
    let mut out: Vec<Candidate> = Vec::new();
    let mut taken: usize = 0;
    let n: usize = view.lines.len();
    let ghost t = top(all@, CANDIDATE_MAX as nat);
    let ghost spec = scored_candidates(view.all(), views(pat@), all@);
    let ghost mut picked = Seq::<Scored>::empty();
    proof {
        assert(picked + top(rest@, CANDIDATE_MAX as nat) =~= t);
    }
    while taken < CANDIDATE_MAX && rest.len() > 0
        invariant
            view.wf(),
            n == view.all().len(),
            taken <= CANDIDATE_MAX,
            t == top(all@, CANDIDATE_MAX as nat),
            spec == scored_candidates(view.all(), views(pat@), all@),
            picked.len() == taken,
            picked + top(rest@, (CANDIDATE_MAX - taken) as nat) == t,
            forall|i: int|
                0 <= i < rest@.len() ==> in_file(#[trigger] rest@[i], view.all().len() as int),
            out@.len() == taken,
            forall|i: int| 0 <= i < taken ==> #[trigger] out@[i]@ == spec[i],
        decreases CANDIDATE_MAX - taken,
    {
        proof {
            assert forall|i: int| 0 <= i < rest@.len() implies (#[trigger] rest@[i]).score.wf() by {
                assert(in_file(rest@[i], view.all().len() as int));
            }
        }
        let i: usize = index_of_max(rest.as_slice());
        let ghost before = rest@;
        let w: Scored = rest.remove(i);
        proof {
            assert(w == before[i as int]);
            assert(in_file(w, n as int));
            let more = top(before, (CANDIDATE_MAX - taken) as nat);
            let tail = top(rest@, (CANDIDATE_MAX - taken - 1) as nat);
            assert(more =~= seq![w] + tail);
            assert((picked + more)[picked.len() as int] == w);
            assert(t[taken as int] == w);
            assert(picked.push(w) + tail =~= picked + more);
            picked = picked.push(w);
            assert forall|j: int| 0 <= j < rest@.len() implies in_file(
                #[trigger] rest@[j],
                view.all().len() as int,
            ) by {
                if j < i {
                    assert(rest@[j] == before[j]);
                } else {
                    assert(rest@[j] == before[j + 1]);
                }
            }
        }
        let score: u64 = w.score.in_billionths();
        let c: Candidate = make_candidate(view, pat, w.start, w.win, score, 3);
        out.push(c);
        taken = taken + 1;
    }
    proof {
        assert(top(rest@, (CANDIDATE_MAX - taken) as nat).len() == 0);
        assert(picked =~= t);
        assert(cand_views(out@) =~= spec);
    }
    out
}

/// A score with two decimals.
pub open spec fn fixed2(score: nat) -> Seq<char> {
    let h = (score * 100 + SCORE_ONE as nat / 2) / SCORE_ONE as nat;
    dec(h / 100) + seq!['.', digit(h % 100 / 10), digit(h % 10)]
}

/// Writes a score with two decimals.
pub fn render_score(score: u64) -> (out: String)
    ensures
        out@ == fixed2(score as nat),
{
    let h: u128 = (score as u128 * 100 + 500_000_000) / 1_000_000_000;
    let mut out: String = crate::format::decimal_big(h / 100);
    out.append(".");
    let tens: String = decimal(((h % 100) / 10) as u64);
    let ones: String = decimal((h % 10) as u64);
    out.append(tens.as_str());
    out.append(ones.as_str());
    proof {
        reveal_strlit(".");
        assert(out@ =~= fixed2(score as nat));
    }
    out
}

/// Why no window was taken.
pub open spec fn no_match_text(p: Tier3Probe) -> Seq<char> {
    if p.best.reaches_threshold() {
        "best score "@ + fixed2(p.best.billionths()) + " but margin to second-best ("@ + fixed2(
            p.second.billionths(),
        ) + ") is below "@ + fixed2(T3_MARGIN as nat)
            + " — two locations look equally plausible; add context_before/context_after or extend 'old'"@
    } else if p.best.is_some_likeness() {
        "best score "@ + fixed2(p.best.billionths()) + " is below threshold "@ + fixed2(
            T3_THRESHOLD as nat,
        )
            + " — closest location is probably wrong; re-check 'old' against the file (see candidates below)"@
    } else {
        "no window had any similarity — 'old' does not resemble any part of the file"@
    }
}

/// Says why no window was taken: the margin, the threshold, or no likeness at all.
pub fn no_match_detail(p: &Tier3Probe) -> (out: String)
    requires
        p.best.wf(),
        p.second.wf(),
    ensures
        out@ == no_match_text(*p),
{
    if p.best.is_high() {
        let mut out: String = "best score ".to_owned();
        out.append(render_score(p.best.in_billionths()).as_str());
        out.append(" but margin to second-best (");
        out.append(render_score(p.second.in_billionths()).as_str());
        out.append(") is below ");
        out.append(render_score(T3_MARGIN).as_str());
        out.append(
            " — two locations look equally plausible; add context_before/context_after or extend 'old'",
        );
        out
    } else if p.best.is_any() {
        let mut out: String = "best score ".to_owned();
        out.append(render_score(p.best.in_billionths()).as_str());
        out.append(" is below threshold ");
        out.append(render_score(T3_THRESHOLD).as_str());
        out.append(
            " — closest location is probably wrong; re-check 'old' against the file (see candidates below)",
        );
        out
    } else {
        "no window had any similarity — 'old' does not resemble any part of the file".to_owned()
    }
}

} // verus!
