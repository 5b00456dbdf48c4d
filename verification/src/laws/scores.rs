//! What holds of every score of a window.

use vstd::prelude::*;

use crate::edit::exact::{nothing, Score, Share};
use crate::edit::indent::stripped;
use crate::edit::matching::ratio_of;
use crate::edit::score::{fixed2, first_max, score_at, top};
use crate::edit::candidate::Scored;
use crate::format::{dec, digit};
use crate::lines::{join, nl};
use crate::outside::{char_steps, equal_total, DiffStep};

verus! {

/// The score of a window sets the pattern against its lines, and each context that is given
/// against the lines before and behind it, all without their common indent.
pub proof fn window_is_scored_against_pattern_and_contexts(
    lines: Seq<Seq<char>>,
    pat: Seq<Seq<char>>,
    before: Seq<Seq<char>>,
    after: Seq<Seq<char>>,
    s: int,
    win: int,
)
    requires
        0 <= s,
        0 < win,
        s + win <= lines.len(),
    ensures
        ({
            let x = score_at(lines, pat, before, after, s, win);
            let text = |part: Seq<Seq<char>>| join(stripped(part), nl());
            let b = before.len() as int;
            let a = after.len() as int;
            &&& x.old == ratio_of(text(pat), text(lines.subrange(s, s + win)))
            &&& b == 0 ==> x.before.num == 0
            &&& a == 0 ==> x.after.num == 0
            &&& 0 < b <= s ==> x.before == ratio_of(text(before), text(lines.subrange(s - b, s)))
            &&& b > s ==> x.before == ratio_of(text(before), text(lines.subrange(0, s)))
            &&& a > 0 && s + win + a <= lines.len() ==> x.after == ratio_of(
                text(after),
                text(lines.subrange(s + win, s + win + a)),
            )
            &&& a > 0 && s + win + a > lines.len() ==> x.after == ratio_of(
                text(after),
                text(lines.subrange(s + win, lines.len() as int)),
            )
            &&& x.weight == 3 + (if b > 0 {
                1int
            } else {
                0
            }) + (if a > 0 {
                1int
            } else {
                0
            })
        }),
{
}

/// The likeness of two texts: the characters in equal stretches, counted twice, over all
/// characters; two empty texts are alike.
pub proof fn likeness_is_the_equal_part(a: Seq<char>, b: Seq<char>)
    requires
        a.len() + b.len() <= u64::MAX,
        2 * equal_total(char_steps(a, b)) <= a.len() + b.len(),
    ensures
        a.len() + b.len() > 0 ==> ratio_of(a, b).num == 2 * equal_total(char_steps(a, b))
            && ratio_of(a, b).den == a.len() + b.len(),
        a.len() + b.len() == 0 ==> ratio_of(a, b).num == 1 && ratio_of(a, b).den == 1,
{
}

/// Equal stretches add up, and only they count.
pub proof fn equal_stretches_add_up(a: Seq<DiffStep>, b: Seq<DiffStep>, s: DiffStep)
    ensures
        equal_total(a + b) == equal_total(a) + equal_total(b),
        s.equal ==> equal_total(seq![s]) == s.old_len,
        !s.equal ==> equal_total(seq![s]) == 0,
    decreases b.len(),
{
    reveal_with_fuel(equal_total, 2);
    assert(seq![s].drop_last() =~= Seq::<DiffStep>::empty());
    if b.len() == 0 {
        assert(a + b =~= a);
    } else {
        equal_stretches_add_up(a, b.drop_last(), s);
        assert((a + b).drop_last() =~= a + b.drop_last());
        assert((a + b).last() == b.last());
    }
}

/// A score is a mean in which the pattern weighs three times as much as a context: where all
/// three shares are the same, it is that share.
pub proof fn score_is_a_weighted_mean(p: u128, q: u128)
    requires
        0 < q,
        p <= q,
    ensures
        ({
            let share = Share { num: p, den: q };
            let x = Score { old: share, before: share, after: share, weight: 5 };
            x.num() * q == p * x.den()
        }),
        ({
            let x = Score {
                old: Share { num: p, den: q },
                before: nothing(),
                after: nothing(),
                weight: 3,
            };
            x.num() * q == p * x.den()
        }),
        ({
            let x = Score {
                old: Share { num: 0, den: 1 },
                before: Share { num: p, den: q },
                after: nothing(),
                weight: 4,
            };
            4 * x.num() * q == p * x.den()
        }),
        ({
            let x = Score {
                old: Share { num: 0, den: 1 },
                before: nothing(),
                after: Share { num: p, den: q },
                weight: 4,
            };
            4 * x.num() * q == p * x.den()
        }),
{
    let n = p as nat;
    let d = q as nat;
    let share = Share { num: p, den: q };
    let x = Score { old: share, before: share, after: share, weight: 5 };
    assert(x.num() == 3 * n * d * d + n * d * d + n * d * d);
    assert(x.den() == 5 * d * d * d);
    assert((3 * n * d * d + n * d * d + n * d * d) * d == n * (5 * d * d * d)) by (nonlinear_arith);
    let y = Score { old: share, before: nothing(), after: nothing(), weight: 3 };
    assert(y.num() == 3 * n && y.den() == 3 * d) by {
        assert(3 * n * 1 * 1 + 0 * d * 1 + 0 * d * 1 == 3 * n) by (nonlinear_arith);
        assert(3 * d * 1 * 1 == 3 * d) by (nonlinear_arith);
    }
    assert((3 * n) * d == n * (3 * d)) by (nonlinear_arith);
    let none = Share { num: 0, den: 1 };
    let z = Score { old: none, before: share, after: nothing(), weight: 4 };
    assert(z.num() == n && z.den() == 4 * d) by {
        assert(3 * 0 * d * 1 + n * 1 * 1 + 0 * 1 * d == n) by (nonlinear_arith);
        assert(4 * 1 * d * 1 == 4 * d) by (nonlinear_arith);
    }
    assert(4 * n * d == n * (4 * d)) by (nonlinear_arith);
    let w = Score { old: none, before: nothing(), after: share, weight: 4 };
    assert(w.num() == n && w.den() == 4 * d) by {
        assert(3 * 0 * 1 * d + 0 * 1 * d + n * 1 * 1 == n) by (nonlinear_arith);
        assert(4 * 1 * 1 * d == 4 * d) by (nonlinear_arith);
    }
}

/// A higher share is a higher score, and a score reaches the threshold exactly from 0.85 on.
pub proof fn higher_share_is_a_higher_score(p: u128, r: u128, q: u128)
    requires
        0 < q,
    ensures
        ({
            let x = Score {
                old: Share { num: p, den: q },
                before: nothing(),
                after: nothing(),
                weight: 3,
            };
            let y = Score {
                old: Share { num: r, den: q },
                before: nothing(),
                after: nothing(),
                weight: 3,
            };
            &&& x.beats(y) <==> p > r
            &&& x.reaches_threshold() <==> 100 * p >= 85 * q
            &&& x.leads_clearly(y) <==> 10 * p >= 10 * r + q
            &&& x.is_some_likeness() <==> 100 * p > q
        }),
{
    let a = p as nat;
    let b = r as nat;
    let d = q as nat;
    let x = Score { old: Share { num: p, den: q }, before: nothing(), after: nothing(), weight: 3 };
    let y = Score { old: Share { num: r, den: q }, before: nothing(), after: nothing(), weight: 3 };
    assert(x.num() == 3 * a && y.num() == 3 * b && x.den() == 3 * d && y.den() == 3 * d) by {
        assert(3 * a * 1 * 1 + 0 * d * 1 + 0 * d * 1 == 3 * a) by (nonlinear_arith);
        assert(3 * b * 1 * 1 + 0 * d * 1 + 0 * d * 1 == 3 * b) by (nonlinear_arith);
        assert(3 * d * 1 * 1 == 3 * d) by (nonlinear_arith);
    }
    assert((3 * a) * (3 * d) > (3 * b) * (3 * d) <==> a > b) by (nonlinear_arith)
        requires
            d > 0,
    ;
    assert((3 * a) * (3 * d) == 9 * (a * d)) by (nonlinear_arith);
    assert((3 * b) * (3 * d) == 9 * (b * d)) by (nonlinear_arith);
    assert((3 * d) * (3 * d) == 9 * (d * d)) by (nonlinear_arith);
    assert(10 * (a * d) >= 10 * (b * d) + d * d <==> 10 * a >= 10 * b + d) by (nonlinear_arith)
        requires
            d > 0,
    ;
}

/// Windows are listed from the best down: the first of the highest score, then the best of the
/// rest, up to a number.
pub proof fn best_windows_come_first(all: Seq<Scored>, k: nat)
    requires
        all.len() > 0,
        k > 0,
    ensures
        top(all, k) == seq![all[first_max(all)]] + top(
            all.remove(first_max(all)),
            (k - 1) as nat,
        ),
        top(all, 0).len() == 0,
        top(Seq::empty(), k).len() == 0,
{
}

/// Up to three windows are named as candidates.
pub proof fn three_candidates_at_most(all: Seq<Scored>, k: nat)
    ensures
        top(all, k).len() == (if all.len() < k {
            all.len()
        } else {
            k
        }),
    decreases k,
{
    if k > 0 && all.len() > 0 {
        let i = first_max(all);
        lemma_first_max(all);
        three_candidates_at_most(all.remove(i), (k - 1) as nat);
    }
}

proof fn lemma_first_max(all: Seq<Scored>)
    requires
        all.len() > 0,
    ensures
        0 <= first_max(all) < all.len(),
    decreases all.len(),
{
    if all.len() > 1 {
        lemma_first_max(all.drop_last());
    }
}

/// A score is shown with two decimals, rounded to the nearest.
pub proof fn scores_are_rounded(score: nat) -> (h: nat)
    ensures
        fixed2(score) == dec(h / 100) + seq!['.', digit(h % 100 / 10), digit(h % 10)],
        2 * (h * 1_000_000_000) <= 2 * (score * 100) + 1_000_000_000,
        2 * (score * 100) < 2 * (h * 1_000_000_000) + 1_000_000_000,
{
    (score * 100 + 500_000_000) / 1_000_000_000
}

} // verus!
