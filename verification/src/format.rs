//! Numbers as text and lengths in UTF-8 bytes.

use vstd::prelude::*;

use crate::text::{chars_of, string_of};

verus! {

/// The decimal digit `d`.
pub open spec fn digit(d: nat) -> char {
    (48 + d) as char
}

/// `n` in decimal.
pub open spec fn dec(n: nat) -> Seq<char>
    decreases n,
{
    if n < 10 {
        seq![digit(n)]
    } else {
        dec(n / 10).push(digit(n % 10))
    }
}

fn decimal_chars(n: u128) -> (out: Vec<char>)
    ensures
        out@ == dec(n as nat),
    decreases n,
{
    let d: u8 = (n % 10) as u8;
    let c: char = (48u8 + d) as char;
    if n < 10 {
        let mut out: Vec<char> = Vec::new();
        out.push(c);
        out
    } else {
        let mut out: Vec<char> = decimal_chars(n / 10);
        out.push(c);
        out
    }
}

/// Writes `n` in decimal.
pub fn decimal(n: u64) -> (out: String)
    ensures
        out@ == dec(n as nat),
{
    let v: Vec<char> = decimal_chars(n as u128);
    string_of(v.as_slice())
}

/// Writes `n` in decimal.
pub fn decimal_big(n: u128) -> (out: String)
    ensures
        out@ == dec(n as nat),
{
    let v: Vec<char> = decimal_chars(n);
    string_of(v.as_slice())
}

/// Writes `n` in decimal.
pub fn decimal_size(n: usize) -> (out: String)
    ensures
        out@ == dec(n as nat),
{
    decimal(n as u64)
}

/// How many bytes `c` takes in UTF-8.
pub open spec fn width(c: char) -> nat {
    if (c as u32) < 0x80 {
        1
    } else if (c as u32) < 0x800 {
        2
    } else if (c as u32) < 0x10000 {
        3
    } else {
        4
    }
}

/// How many bytes `s` takes in UTF-8.
pub open spec fn byte_len(s: Seq<char>) -> nat
    decreases s.len(),
{
    if s.len() == 0 {
        0
    } else {
        byte_len(s.drop_last()) + width(s.last())
    }
}

/// How many bytes `c` takes in UTF-8.
pub fn char_width(c: char) -> (n: usize)
    ensures
        n == width(c),
{
    let u: u32 = c as u32;
    if u < 0x80 {
        1
    } else if u < 0x800 {
        2
    } else if u < 0x10000 {
        3
    } else {
        4
    }
}

/// Bytes add up over concatenation.
pub proof fn lemma_byte_len_concat(a: Seq<char>, b: Seq<char>)
    ensures
        byte_len(a + b) == byte_len(a) + byte_len(b),
    decreases b.len(),
{
    if b.len() == 0 {
        assert(a + b =~= a);
    } else {
        assert((a + b).drop_last() =~= a + b.drop_last());
        lemma_byte_len_concat(a, b.drop_last());
    }
}

/// A longer prefix takes at least as many bytes, and one more for each character.
pub proof fn lemma_byte_len_prefix(s: Seq<char>, i: int, j: int)
    requires
        0 <= i <= j <= s.len(),
    ensures
        byte_len(s.take(i)) + (j - i) <= byte_len(s.take(j)),
        byte_len(s.take(j)) <= byte_len(s.take(i)) + 4 * (j - i),
    decreases j - i,
{
    if i < j {
        lemma_byte_len_prefix(s, i, j - 1);
        assert(s.take(j).drop_last() =~= s.take(j - 1));
    }
}

/// The largest number of whole characters from the front of `s` that fit in
/// `max` bytes.
pub open spec fn fitting(s: Seq<char>, max: nat) -> nat
    decreases s.len(),
{
    if byte_len(s) <= max {
        s.len()
    } else {
        fitting(s.drop_last(), max)
    }
}

proof fn lemma_fitting_at(s: Seq<char>, max: nat, k: nat)
    requires
        k <= s.len(),
        byte_len(s.take(k as int)) <= max,
        k < s.len() ==> byte_len(s.take((k + 1) as int)) > max,
    ensures
        fitting(s, max) == k,
    decreases s.len(),
{
    if k == s.len() {
        assert(s.take(k as int) =~= s);
    } else {
        lemma_byte_len_prefix(s, (k + 1) as int, s.len() as int);
        assert(s.take(s.len() as int) =~= s);
        let t = s.drop_last();
        assert(t.take(k as int) =~= s.take(k as int));
        if k < t.len() {
            assert(t.take((k + 1) as int) =~= s.take((k + 1) as int));
        }
        lemma_fitting_at(t, max, k);
    }
}

/// Counts the whole characters from the front of `s` that fit in `max` bytes.
/// Byte counts are 128 bits wide, which holds those of any text in memory.
pub fn chars_fitting(s: &[char], max: u128) -> (k: usize)
    ensures
        k == fitting(s@, max as nat),
        k <= s@.len(),
{
    let mut k: usize = 0;
    let mut used: u128 = 0;
    proof {
        assert(s@.take(0) =~= Seq::<char>::empty());
    }
    while k < s.len()
        invariant
            k <= s@.len(),
            used <= max,
            used == byte_len(s@.take(k as int)),
        decreases s@.len() - k,
    {
        let w: u128 = char_width(s[k]) as u128;
        proof {
            assert(s@.take(k + 1).drop_last() =~= s@.take(k as int));
        }
        if w > max - used {
            proof {
                lemma_fitting_at(s@, max as nat, k as nat);
            }
            return k;
        }
        used = used + w;
        k = k + 1;
    }
    proof {
        lemma_fitting_at(s@, max as nat, k as nat);
    }
    k
}

/// The byte length of the first `k` characters of `s`.
pub fn prefix_bytes(s: &[char], k: usize) -> (n: u128)
    requires
        k <= s@.len(),
    ensures
        n == byte_len(s@.take(k as int)),
        n <= 4 * k,
{
    let mut n: u128 = 0;
    let mut i: usize = 0;
    proof {
        assert(s@.take(0) =~= Seq::<char>::empty());
    }
    while i < k
        invariant
            i <= k <= s@.len(),
            n == byte_len(s@.take(i as int)),
            n <= 4 * i,
        decreases k - i,
    {
        let w: u128 = char_width(s[i]) as u128;
        proof {
            assert(s@.take(i + 1).drop_last() =~= s@.take(i as int));
        }
        n = n + w;
        i = i + 1;
    }
    n
}

/// The byte length of `s`.
pub fn byte_length(s: &[char]) -> (n: u128)
    ensures
        n == byte_len(s@),
{
    proof {
        assert(s@.take(s@.len() as int) =~= s@);
    }
    prefix_bytes(s, s.len())
}

/// The characters that fit take up no more than the limit.
pub proof fn lemma_fitting_bound(s: Seq<char>, max: nat)
    ensures
        fitting(s, max) <= s.len(),
        fitting(s, max) == s.len() <==> byte_len(s) <= max,
        byte_len(s.take(fitting(s, max) as int)) <= max,
    decreases s.len(),
{
    if byte_len(s) <= max {
        assert(s.take(s.len() as int) =~= s);
    } else {
        let t = s.drop_last();
        lemma_fitting_bound(t, max);
        assert(t.take(fitting(t, max) as int) =~= s.take(fitting(t, max) as int));
    }
}

proof fn lemma_scalar_width(c: char)
    ensures
        vstd::utf8::encode_scalar(c as u32).len() == width(c),
{
    vstd::utf8::char_is_scalar(c);
}

/// `byte_len` is the length of the UTF-8 encoding.
pub proof fn byte_len_is_utf8_length(s: Seq<char>)
    ensures
        byte_len(s) == vstd::utf8::encode_utf8(s).len(),
    decreases s.len(),
{
    if s.len() > 0 {
        let head = seq![s[0]];
        let rest = s.drop_first();
        byte_len_is_utf8_length(rest);
        assert(s =~= head + rest);
        lemma_byte_len_concat(head, rest);
        assert(byte_len(head.drop_last()) == 0);
        assert(byte_len(head) == width(s[0]));
        lemma_scalar_width(s[0]);
    }
}

/// The UTF-8 encodings of two texts stand one behind the other in that of both.
pub proof fn lemma_encode_concat(a: Seq<char>, b: Seq<char>)
    ensures
        vstd::utf8::encode_utf8(a + b) == vstd::utf8::encode_utf8(a) + vstd::utf8::encode_utf8(b),
    decreases a.len(),
{
    if a.len() == 0 {
        assert(a + b =~= b);
        assert(vstd::utf8::encode_utf8(a) + vstd::utf8::encode_utf8(b) =~= vstd::utf8::encode_utf8(b));
    } else {
        let f = a.drop_first();
        lemma_encode_concat(f, b);
        assert((a + b).drop_first() =~= f + b);
        assert(vstd::utf8::encode_utf8(a + b) =~= vstd::utf8::encode_utf8(a) + vstd::utf8::encode_utf8(b));
    }
}

/// A run of spaces.
pub open spec fn spaces(n: nat) -> Seq<char> {
    Seq::new(n, |i: int| ' ')
}

/// A text filled up with spaces behind it to a width.
pub open spec fn left_aligned(s: Seq<char>, w: nat) -> Seq<char> {
    if s.len() >= w {
        s
    } else {
        s + spaces((w - s.len()) as nat)
    }
}

/// A text filled up with spaces before it to a width.
pub open spec fn right_aligned(s: Seq<char>, w: nat) -> Seq<char> {
    if s.len() >= w {
        s
    } else {
        spaces((w - s.len()) as nat) + s
    }
}

fn blanks(n: usize) -> (out: Vec<char>)
    ensures
        out@ == spaces(n as nat),
{
    let mut out: Vec<char> = Vec::new();
    while out.len() < n
        invariant
            out@.len() <= n,
            out@ == spaces(out@.len()),
        decreases n - out@.len(),
    {
        out.push(' ');
        proof {
            assert(out@ =~= spaces(out@.len()));
        }
    }
    out
}

/// Fills a text up with spaces behind it.
pub fn pad_right(s: &str, w: usize) -> (out: String)
    ensures
        out@ == left_aligned(s@, w as nat),
{
    let c: Vec<char> = chars_of(s);
    let n: usize = c.len();
    if n >= w {
        return s.to_owned();
    }
    let fill: Vec<char> = blanks(w - n);
    let mut out: String = s.to_owned();
    out.append(string_of(fill.as_slice()).as_str());
    out
}

/// Fills a text up with spaces before it.
pub fn pad_left(s: &str, w: usize) -> (out: String)
    ensures
        out@ == right_aligned(s@, w as nat),
{
    let c: Vec<char> = chars_of(s);
    let n: usize = c.len();
    if n >= w {
        return s.to_owned();
    }
    let fill: Vec<char> = blanks(w - n);
    let mut out: String = string_of(fill.as_slice());
    out.append(s);
    out
}

} // verus!
