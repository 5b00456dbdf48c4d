//! Indentation: the shape of a block of lines once its common indent is gone.

use vstd::prelude::*;

use crate::format::{byte_len, chars_fitting, fitting, prefix_bytes};
use crate::lines::views;
use crate::text::{blank, is_blank, leading_whitespace, leading_ws, slice_of};

verus! {

/// The leading white space of a line, in bytes.
pub open spec fn indent(l: Seq<char>) -> nat {
    byte_len(l.take(leading_ws(l) as int))
}

/// The smallest indent among the lines that are not blank.
pub open spec fn min_indent(lines: Seq<Seq<char>>) -> Option<nat>
    decreases lines.len(),
{
    if lines.len() == 0 {
        None
    } else {
        let rest = min_indent(lines.drop_last());
        let l = lines.last();
        if is_blank(l) {
            rest
        } else {
            match rest {
                Some(m) => Some(if m <= indent(l) { m } else { indent(l) }),
                None => Some(indent(l)),
            }
        }
    }
}

/// The common indent of some lines: 0 when all are blank.
pub open spec fn common_indent(lines: Seq<Seq<char>>) -> nat {
    match min_indent(lines) {
        Some(m) => m,
        None => 0,
    }
}

/// `l` without its first `n` bytes; nothing when that would split a character.
pub open spec fn cut(l: Seq<char>, n: nat) -> Seq<char> {
    let k = fitting(l, n) as int;
    if byte_len(l.take(k)) == n {
        l.skip(k)
    } else {
        Seq::<char>::empty()
    }
}

/// The lines without their common indent; a blank line becomes empty.
pub open spec fn stripped(lines: Seq<Seq<char>>) -> Seq<Seq<char>> {
    let m = common_indent(lines);
    Seq::new(
        lines.len(),
        |i: int|
            if is_blank(lines[i]) {
                Seq::<char>::empty()
            } else {
                cut(lines[i], m)
            },
    )
}

/// The leading white space of a line, in bytes.
pub fn indent_of(l: &[char]) -> (n: u128)
    ensures
        n == indent(l@),
{
    let k: usize = leading_whitespace(l);
    prefix_bytes(l, k)
}

/// The common indent of some lines: 0 when all are blank.
pub fn common_indent_of(lines: &[Vec<char>]) -> (n: u128)
    ensures
        n == common_indent(views(lines@)),
{
    let mut best: Option<u128> = None;
    let mut i: usize = 0;
    let ghost v = views(lines@);
    proof {
        assert(v.take(0) =~= Seq::<Seq<char>>::empty());
    }
    while i < lines.len()
        invariant
            i <= lines@.len(),
            v == views(lines@),
            match best {
                Some(m) => min_indent(v.take(i as int)) == Some(m as nat),
                None => min_indent(v.take(i as int)) is None,
            },
        decreases lines@.len() - i,
    {
        proof {
            assert(v.take(i + 1).drop_last() =~= v.take(i as int));
            assert(v.take(i + 1).last() == lines@[i as int]@);
        }
        if !blank(lines[i].as_slice()) {
            let d: u128 = indent_of(lines[i].as_slice());
            best = match best {
                Some(m) => Some(if m <= d { m } else { d }),
                None => Some(d),
            };
        }
        i = i + 1;
    }
    proof {
        assert(v.take(v.len() as int) =~= v);
    }
    match best {
        Some(m) => m,
        None => 0,
    }
}

/// `l` without its first `n` bytes.
pub fn cut_of(l: &[char], n: u128) -> (out: Vec<char>)
    ensures
        out@ == cut(l@, n as nat),
{
    let k: usize = chars_fitting(l, n);
    if prefix_bytes(l, k) == n {
        proof {
            assert(l@.subrange(k as int, l@.len() as int) =~= l@.skip(k as int));
        }
        slice_of(l, k, l.len())
    } else {
        Vec::new()
    }
}

/// Strips the common indent off some lines.
pub fn strip_indent(lines: &[Vec<char>]) -> (out: Vec<Vec<char>>)
    ensures
        views(out@) == stripped(views(lines@)),
{
    let m: u128 = common_indent_of(lines);
    let mut out: Vec<Vec<char>> = Vec::new();
    let mut i: usize = 0;
    while i < lines.len()
        invariant
            i <= lines@.len(),
            m == common_indent(views(lines@)),
            out@.len() == i,
            forall|k: int|
                0 <= k < i ==> #[trigger] out@[k]@ == stripped(views(lines@))[k],
        decreases lines@.len() - i,
    {
        proof {
            assert(views(lines@)[i as int] == lines@[i as int]@);
        }
        if blank(lines[i].as_slice()) {
            out.push(Vec::new());
        } else {
            out.push(cut_of(lines[i].as_slice(), m));
        }
        i = i + 1;
    }
    proof {
        assert(views(out@) =~= stripped(views(lines@)));
    }
    out
}

} // verus!
