//! The lines of a file as it is on disk, with whatever line breaks it has.

use vstd::prelude::*;

use crate::file_shared::{crlf, has_cr};
use crate::lines::{extend, nl};

verus! {

/// The end of the line that position `p` lies in, with its line break.
pub open spec fn next_line(s: Seq<char>, p: int) -> int
    decreases s.len() - p,
{
    if p < 0 || p >= s.len() {
        s.len() as int
    } else if s[p] == '\r' && p + 1 < s.len() && s[p + 1] == '\n' {
        p + 2
    } else if s[p] == '\r' || s[p] == '\n' {
        p + 1
    } else {
        next_line(s, p + 1)
    }
}

/// Where line `k` of a file starts, whatever its line breaks.
pub open spec fn raw_start(s: Seq<char>, k: int) -> int
    decreases k,
{
    if k <= 0 {
        0
    } else {
        next_line(s, raw_start(s, k - 1))
    }
}

/// Whether a text ends in a line break.
pub open spec fn breaks_off(s: Seq<char>) -> bool {
    s.len() > 0 && (s.last() == '\n' || s.last() == '\r')
}

/// The line break of a file.
pub open spec fn line_break(s: Seq<char>) -> Seq<char> {
    if has_cr(s) {
        crlf()
    } else {
        nl()
    }
}

/// Lines one after another, each with a line break.
pub open spec fn terminated(lines: Seq<Seq<char>>, eol: Seq<char>) -> Seq<char>
    decreases lines.len(),
{
    if lines.len() == 0 {
        Seq::<char>::empty()
    } else {
        terminated(lines.drop_last(), eol) + lines.last() + eol
    }
}

/// A text with a line break at its end, unless it is empty or has one.
pub open spec fn closed_off(s: Seq<char>, eol: Seq<char>) -> Seq<char> {
    if s.len() == 0 || breaks_off(s) {
        s
    } else {
        s + eol
    }
}

pub proof fn lemma_next_line(s: Seq<char>, p: int)
    requires
        0 <= p <= s.len(),
    ensures
        p <= next_line(s, p) <= s.len(),
    decreases s.len() - p,
{
    if p < s.len() && !(s[p] == '\r' || s[p] == '\n') {
        lemma_next_line(s, p + 1);
    }
}

pub proof fn lemma_raw_start(s: Seq<char>, k: int)
    ensures
        0 <= raw_start(s, k) <= s.len(),
    decreases k,
{
    if k > 0 {
        lemma_raw_start(s, k - 1);
        lemma_next_line(s, raw_start(s, k - 1));
    }
}

/// Finds where a line of a file starts.
pub fn find_start(s: &[char], k: usize) -> (p: usize)
    ensures
        p == raw_start(s@, k as int),
        p <= s@.len(),
{
    let mut p: usize = 0;
    let mut i: usize = 0;
    while i < k
        invariant
            i <= k,
            p == raw_start(s@, i as int),
            p <= s@.len(),
        decreases k - i,
    {
        let n: usize = s.len();
        let ghost from = p as int;
        let mut q: usize = p;
        let mut open: bool = true;
        while open
            invariant
                n == s@.len(),
                from <= q <= n,
                open ==> next_line(s@, from) == next_line(s@, q as int),
                !open ==> next_line(s@, from) == q,
            decreases (if open { 1int } else { 0 }), n - q,
        {
            if q >= n {
                open = false;
            } else if s[q] == '\r' && q + 1 < n && s[q + 1] == '\n' {
                q = q + 2;
                open = false;
            } else if s[q] == '\r' || s[q] == '\n' {
                q = q + 1;
                open = false;
            } else {
                q = q + 1;
            }
        }
        p = q;
        i = i + 1;
    }
    p
}

/// Adds a text, with a line break at its end unless it is empty or has one.
pub fn close_off(out: &mut Vec<char>, s: &[char], eol: &[char])
    ensures
        final(out)@ == old(out)@ + closed_off(s@, eol@),
{
    let ghost before = out@;
    let n: usize = s.len();
    extend(out, s);
    if n > 0 && !(s[n - 1] == '\n' || s[n - 1] == '\r') {
        extend(out, eol);
        proof {
            assert(out@ =~= before + (s@ + eol@));
        }
    }
}

} // verus!
