//! Numbered listings of lines, and how much of them fits an answer.

use vstd::prelude::*;

use crate::format::{dec, decimal_size};
use crate::lines::{extend, join, join_parts, lemma_split_short, nl, split_lines, split_nl, views};
use crate::text::chars_of;

verus! {

/// How many lines a text has: an empty line at the very end does not count.
pub open spec fn line_count(s: Seq<char>) -> nat {
    let lines = split_nl(s);
    if lines.last().len() == 0 {
        (lines.len() - 1) as nat
    } else {
        lines.len()
    }
}

/// A text has no more lines than characters.
pub proof fn lemma_line_count_short(s: Seq<char>)
    ensures
        line_count(s) <= s.len(),
{
    lemma_split_short(s);
    if s.len() > 0 {
        lemma_split_short(s.drop_last());
    }
}

/// All lines of a text but an empty one at the very end.
pub open spec fn counted_lines(s: Seq<char>) -> Seq<Seq<char>> {
    split_nl(s).take(line_count(s) as int)
}

proof fn lemma_split_pieces(x: Seq<char>, y: Seq<char>)
    requires
        x.len() == 0 || x.last() == '\n',
    ensures
        split_nl(x + y) == split_nl(x).drop_last() + split_nl(y),
        split_nl(x).last().len() == 0,
    decreases y.len(),
{
    lemma_split_short(x);
    if x.len() > 0 {
        lemma_split_short(x.drop_last());
    }
    if y.len() == 0 {
        assert(x + y =~= x);
        assert(split_nl(x) =~= split_nl(x).drop_last() + split_nl(y));
    } else {
        let f = y.drop_last();
        lemma_split_pieces(x, f);
        lemma_split_short(f);
        assert((x + y).drop_last() =~= x + f);
        assert((x + y).last() == y.last());
        assert(split_nl(x + y) =~= split_nl(x).drop_last() + split_nl(y));
    }
}

/// The lines of a text that is made of whole lines and more: those of the one, then
/// those of the other.
pub proof fn lines_of_pieces(x: Seq<char>, y: Seq<char>)
    requires
        x.len() == 0 || x.last() == '\n',
    ensures
        counted_lines(x + y) == counted_lines(x) + counted_lines(y),
{
    lemma_split_pieces(x, y);
    lemma_split_short(x);
    lemma_split_short(y);
    assert(split_nl(x + y).last() == split_nl(y).last());
    assert(counted_lines(x) =~= split_nl(x).drop_last());
    assert(counted_lines(x + y) =~= counted_lines(x) + counted_lines(y));
}

/// A text without a newline is one line.
pub proof fn lemma_one_line(s: Seq<char>)
    requires
        !s.contains('\n'),
    ensures
        split_nl(s) == seq![s],
    decreases s.len(),
{
    if s.len() > 0 {
        let f = s.drop_last();
        assert forall|i: int| 0 <= i < f.len() implies f[i] != '\n' by {
            assert(f[i] == s[i]);
        }
        lemma_one_line(f);
        assert(s.last() == s[s.len() - 1]);
        assert(f.push(s.last()) =~= s);
        assert(split_nl(s) =~= seq![s]);
    } else {
        assert(s =~= Seq::<char>::empty());
    }
}

/// A newline at the end of a text that has none there opens no line.
pub proof fn closing_newline_opens_no_line(s: Seq<char>)
    requires
        s.len() > 0,
        s.last() != '\n',
    ensures
        counted_lines(s + nl()) == counted_lines(s),
{
    lemma_split_short(s);
    lemma_split_short(s.drop_last());
    assert((s + nl()).drop_last() =~= s);
    assert((s + nl()).last() == '\n');
    assert(counted_lines(s + nl()) =~= split_nl(s));
    assert(counted_lines(s) =~= split_nl(s));
}

/// How many lines some text split into lines has.
pub fn count_split(lines: &[Vec<char>]) -> (n: usize)
    requires
        lines@.len() >= 1,
    ensures
        n == (if views(lines@).last().len() == 0 {
            lines@.len() - 1
        } else {
            lines@.len() as int
        }),
        n <= lines@.len() <= n + 1,
{
    let n: usize = lines.len();
    proof {
        assert(views(lines@).last() == lines@[n - 1]@);
    }
    if lines[n - 1].len() == 0 {
        n - 1
    } else {
        n
    }
}

/// How many lines a text has.
pub fn count_lines(s: &str) -> (n: usize)
    ensures
        n == line_count(s@),
{
    let c: Vec<char> = chars_of(s);
    let lines: Vec<Vec<char>> = split_lines(c.as_slice());
    count_split(lines.as_slice())
}

/// A line with its 1-based number.
pub open spec fn numbered_line(lines: Seq<Seq<char>>, i: int) -> Seq<char> {
    "L"@ + dec((i + 1) as nat) + ": "@ + lines[i]
}

/// The lines `from..to`, numbered.
pub open spec fn listing(lines: Seq<Seq<char>>, from: int, to: int) -> Seq<char> {
    join(Seq::new((to - from) as nat, |k: int| numbered_line(lines, from + k)), nl())
}

/// Lists the lines `from..to`, numbered.
pub fn list_lines(lines: &[Vec<char>], from: usize, to: usize) -> (out: Vec<char>)
    requires
        from <= to <= lines@.len(),
    ensures
        out@ == listing(views(lines@), from as int, to as int),
{
    let ghost v = views(lines@);
    let ghost spec = Seq::new((to - from) as nat, |k: int| numbered_line(v, from + k));
    let n: usize = lines.len();
    let mut parts: Vec<Vec<char>> = Vec::new();
    let mut i: usize = from;
    while i < to
        invariant
            from <= i <= to <= lines@.len() == n,
            v == views(lines@),
            spec == Seq::new((to - from) as nat, |k: int| numbered_line(v, from + k)),
            parts@.len() == i - from,
            forall|k: int| 0 <= k < parts@.len() ==> #[trigger] parts@[k]@ == spec[k],
        decreases to - i,
    {
        let mut head: String = "L".to_owned();
        head.append(decimal_size(i + 1).as_str());
        head.append(": ");
        let mut l: Vec<char> = chars_of(head.as_str());
        extend(&mut l, lines[i].as_slice());
        proof {
            assert(v[i as int] == lines@[i as int]@);
            assert(l@ =~= spec[i - from]);
        }
        parts.push(l);
        i = i + 1;
    }
    let newline: Vec<char> = vec!['\n'];
    proof {
        assert(newline@ =~= nl());
        assert(views(parts@) =~= spec);
    }
    join_parts(parts.as_slice(), newline.as_slice())
}

/// What the lines `from..to` are taken to need: their characters and eight more for
/// each number.
pub open spec fn cost(lines: Seq<Seq<char>>, from: int, to: int) -> nat
    decreases to - from,
{
    if to <= from {
        0
    } else {
        cost(lines, from, to - 1) + lines[to - 1].len() + 8
    }
}

/// What the lines `from..to` are taken to need, up to one more than a limit.
pub fn cost_capped(lines: &[Vec<char>], from: usize, to: usize, cap: usize) -> (n: u128)
    requires
        from <= to <= lines@.len(),
    ensures
        n <= cap ==> n == cost(views(lines@), from as int, to as int),
        n > cap <==> cost(views(lines@), from as int, to as int) > cap,
{
    let ghost v = views(lines@);
    let mut n: u128 = 0;
    let mut i: usize = from;
    while i < to
        invariant
            from <= i <= to <= lines@.len(),
            v == views(lines@),
            n == cost(v, from as int, i as int),
            n <= cap,
        decreases to - i,
    {
        proof {
            assert(v[i as int] == lines@[i as int]@);
            lemma_cost_monotone(v, from as int, i + 1, to as int);
        }
        n = n + lines[i].len() as u128 + 8;
        i = i + 1;
        if n > cap as u128 {
            return n;
        }
    }
    n
}

proof fn lemma_cost_monotone(lines: Seq<Seq<char>>, from: int, i: int, j: int)
    requires
        i <= j,
    ensures
        cost(lines, from, i) <= cost(lines, from, j),
    decreases j - i,
{
    if i < j {
        lemma_cost_monotone(lines, from, i, j - 1);
    }
}

/// How far a listing from `from` on gets within a budget: the last line whose
/// running cost still fits.
pub open spec fn reach(lines: Seq<Seq<char>>, from: int, to: int, cap: nat) -> int
    decreases to - from,
{
    if to <= from || cost(lines, from, to) <= cap {
        to
    } else {
        reach(lines, from, to - 1, cap)
    }
}

proof fn lemma_reach(lines: Seq<Seq<char>>, from: int, to: int, cap: nat, e: int)
    requires
        from <= e <= to,
        cost(lines, from, e) <= cap,
        e < to ==> cost(lines, from, e + 1) > cap,
    ensures
        reach(lines, from, to, cap) == e,
    decreases to - e,
{
    if e < to {
        lemma_cost_monotone(lines, from, e + 1, to);
        lemma_reach(lines, from, to - 1, cap, e);
    }
}

pub proof fn lemma_reach_bounds(lines: Seq<Seq<char>>, from: int, to: int, cap: nat)
    requires
        from <= to,
    ensures
        from <= reach(lines, from, to, cap) <= to,
    decreases to - from,
{
    if to > from && cost(lines, from, to) > cap {
        lemma_reach_bounds(lines, from, to - 1, cap);
    }
}

/// Finds how far a listing gets within a budget.
pub fn reach_of(lines: &[Vec<char>], from: usize, to: usize, cap: usize) -> (e: usize)
    requires
        from <= to <= lines@.len(),
    ensures
        e == reach(views(lines@), from as int, to as int, cap as nat),
        from <= e <= to,
{
    let ghost v = views(lines@);
    let mut n: u128 = 0;
    let mut i: usize = from;
    while i < to
        invariant
            from <= i <= to <= lines@.len(),
            v == views(lines@),
            n == cost(v, from as int, i as int),
            n <= cap,
        decreases to - i,
    {
        proof {
            assert(v[i as int] == lines@[i as int]@);
        }
        n = n + lines[i].len() as u128 + 8;
        if n > cap as u128 {
            proof {
                lemma_reach(v, from as int, to as int, cap as nat, i as int);
            }
            return i;
        }
        i = i + 1;
    }
    proof {
        lemma_reach(v, from as int, to as int, cap as nat, i as int);
    }
    i
}

} // verus!
