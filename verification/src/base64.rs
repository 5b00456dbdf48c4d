//! Base64 (RFC 4648, with padding).

use vstd::prelude::*;

use crate::text::{chars_of, is_whitespace, is_ws, string_of};

verus! {

/// The character that stands for a six-bit digit.
pub open spec fn symbol(d: int) -> char {
    if d < 26 {
        (65 + d) as char
    } else if d < 52 {
        (97 + d - 26) as char
    } else if d < 62 {
        (48 + d - 52) as char
    } else if d == 62 {
        '+'
    } else {
        '/'
    }
}

/// The six-bit digit that a character stands for.
pub open spec fn digit(c: char) -> Option<int> {
    if 'A' <= c <= 'Z' {
        Some(c as int - 65)
    } else if 'a' <= c <= 'z' {
        Some(c as int - 97 + 26)
    } else if '0' <= c <= '9' {
        Some(c as int - 48 + 52)
    } else if c == '+' {
        Some(62)
    } else if c == '/' {
        Some(63)
    } else {
        None
    }
}

/// Bytes in Base64: three bytes make four characters, and `=` fills the last four
/// up when one or two bytes are left.
pub open spec fn encoded(b: Seq<u8>) -> Seq<char>
    decreases b.len(),
{
    if b.len() == 0 {
        Seq::empty()
    } else if b.len() == 1 {
        seq![symbol((b[0] / 4) as int), symbol((b[0] % 4) * 16), '=', '=']
    } else if b.len() == 2 {
        seq![
            symbol((b[0] / 4) as int),
            symbol((b[0] % 4) * 16 + b[1] / 16),
            symbol((b[1] % 16) * 4),
            '=',
        ]
    } else {
        seq![
            symbol((b[0] / 4) as int),
            symbol((b[0] % 4) * 16 + b[1] / 16),
            symbol((b[1] % 16) * 4 + b[2] / 64),
            symbol((b[2] % 64) as int),
        ] + encoded(b.skip(3))
    }
}

/// The digits of a Base64 text up to its first `=`, white space left out; the
/// first character before it that is none of these is an error.
pub open spec fn digits_of(s: Seq<char>) -> Result<Seq<int>, char>
    decreases s.len(),
{
    if s.len() == 0 || s[0] == '=' {
        Ok(Seq::empty())
    } else if is_ws(s[0]) {
        digits_of(s.skip(1))
    } else {
        match digit(s[0]) {
            None => Err(s[0]),
            Some(d) => match digits_of(s.skip(1)) {
                Ok(more) => Ok(seq![d] + more),
                Err(c) => Err(c),
            },
        }
    }
}

/// The whole bytes that a run of six-bit digits holds.
pub open spec fn bytes_of(d: Seq<int>) -> Seq<u8>
    decreases d.len(),
{
    if d.len() < 2 {
        Seq::empty()
    } else if d.len() == 2 {
        seq![(d[0] * 4 + d[1] / 16) as u8]
    } else if d.len() == 3 {
        seq![(d[0] * 4 + d[1] / 16) as u8, ((d[1] % 16) * 16 + d[2] / 4) as u8]
    } else {
        seq![
            (d[0] * 4 + d[1] / 16) as u8,
            ((d[1] % 16) * 16 + d[2] / 4) as u8,
            ((d[2] % 4) * 64 + d[3]) as u8,
        ] + bytes_of(d.skip(4))
    }
}

fn symbol_of(d: u8) -> (c: char)
    requires
        d < 64,
    ensures
        c == symbol(d as int),
{
    if d < 26 {
        (65u8 + d) as char
    } else if d < 52 {
        (71u8 + d) as char
    } else if d < 62 {
        (d - 4u8) as char
    } else if d == 62 {
        '+'
    } else {
        '/'
    }
}

/// The six-bit digit that a character stands for.
pub fn digit_of(c: char) -> (r: Option<u8>)
    ensures
        match r {
            Some(d) => d < 64 && digit(c) == Some(d as int),
            None => digit(c) is None,
        },
{
    if 'A' <= c && c <= 'Z' {
        Some((c as u32 - 65) as u8)
    } else if 'a' <= c && c <= 'z' {
        Some((c as u32 - 71) as u8)
    } else if '0' <= c && c <= '9' {
        Some((c as u32 + 4) as u8)
    } else if c == '+' {
        Some(62)
    } else if c == '/' {
        Some(63)
    } else {
        None
    }
}

/// Writes bytes in Base64.
pub fn base64_encode(bytes: &[u8]) -> (out: String)
    ensures
        out@ == encoded(bytes@),
{
    let mut out: Vec<char> = Vec::new();
    let n: usize = bytes.len();
    let mut i: usize = 0;
    proof {
        assert(bytes@.skip(0) =~= bytes@);
    }
    while n - i >= 3
        invariant
            i <= n,
            n == bytes@.len(),
            out@ + encoded(bytes@.skip(i as int)) == encoded(bytes@),
        decreases n - i,
    {
        let (a, b, c) = (bytes[i], bytes[i + 1], bytes[i + 2]);
        let ghost before = out@;
        out.push(symbol_of(a / 4));
        out.push(symbol_of((a % 4) * 16 + b / 16));
        out.push(symbol_of((b % 16) * 4 + c / 64));
        out.push(symbol_of(c % 64));
        proof {
            let rest = bytes@.skip(i as int);
            assert(rest.skip(3) =~= bytes@.skip(i + 3));
            assert(out@ + encoded(rest.skip(3)) =~= before + encoded(rest));
        }
        i = i + 3;
    }
    let ghost rest = bytes@.skip(i as int);
    let ghost before = out@;
    if n - i == 1 {
        let a: u8 = bytes[i];
        out.push(symbol_of(a / 4));
        out.push(symbol_of((a % 4) * 16));
        out.push('=');
        out.push('=');
    } else if n - i == 2 {
        let (a, b) = (bytes[i], bytes[i + 1]);
        out.push(symbol_of(a / 4));
        out.push(symbol_of((a % 4) * 16 + b / 16));
        out.push(symbol_of((b % 16) * 4));
        out.push('=');
    }
    proof {
        assert(out@ =~= before + encoded(rest));
    }
    string_of(out.as_slice())
}

spec fn ints(d: Seq<u8>) -> Seq<int> {
    d.map(|_i: int, x: u8| x as int)
}

fn collect_digits(s: &[char]) -> (r: Result<Vec<u8>, char>)
    ensures
        match r {
            Ok(d) => digits_of(s@) == Ok::<Seq<int>, char>(ints(d@)) && forall|i: int|
                0 <= i < d@.len() ==> #[trigger] d@[i] < 64,
            Err(c) => digits_of(s@) == Err::<Seq<int>, char>(c),
        },
{
    let mut out: Vec<u8> = Vec::new();
    let mut i: usize = 0;
    proof {
        assert(s@.skip(0) =~= s@);
        match digits_of(s@) {
            Ok(more) => assert(ints(out@) + more =~= more),
            Err(_) => {},
        }
    }
    while i < s.len()
        invariant
            i <= s@.len(),
            forall|j: int| 0 <= j < out@.len() ==> #[trigger] out@[j] < 64,
            digits_of(s@) == match digits_of(s@.skip(i as int)) {
                Ok(more) => Ok::<Seq<int>, char>(ints(out@) + more),
                Err(c) => Err::<Seq<int>, char>(c),
            },
        decreases s@.len() - i,
    {
        let c: char = s[i];
        let ghost rest = s@.skip(i as int);
        proof {
            assert(rest[0] == c);
            assert(rest.skip(1) =~= s@.skip(i + 1));
        }
        if c == '=' {
            proof {
                assert(ints(out@) + Seq::<int>::empty() =~= ints(out@));
            }
            return Ok(out);
        }
        if !is_whitespace(c) {
            match digit_of(c) {
                Some(d) => {
                    let ghost before = out@;
                    out.push(d);
                    proof {
                        match digits_of(rest.skip(1)) {
                            Ok(more) => assert(ints(out@) + more =~= ints(before) + (seq![d as int] + more)),
                            Err(_) => {},
                        }
                    }
                },
                None => {
                    return Err(c);
                },
            }
        }
        i = i + 1;
    }
    proof {
        assert(ints(out@) + Seq::<int>::empty() =~= ints(out@));
    }
    Ok(out)
}

/// Reads Base64 up to its first `=`, skipping white space; a character that is no
/// Base64 digit is an error.
pub fn base64_decode(input: &str) -> (r: Result<Vec<u8>, String>)
    ensures
        match digits_of(input@) {
            Ok(d) => r matches Ok(b) && b@ == bytes_of(d),
            Err(c) => r matches Err(e) && e@ == "invalid base64 char: "@ + seq![c],
        },
{
    let s: Vec<char> = chars_of(input);
    let d: Vec<u8> = match collect_digits(s.as_slice()) {
        Ok(d) => d,
        Err(c) => {
            let mut e: String = "invalid base64 char: ".to_owned();
            let v: Vec<char> = vec![c];
            let one: String = string_of(v.as_slice());
            e.append(one.as_str());
            proof {
                assert(v@ =~= seq![c]);
            }
            return Err(e);
        },
    };
    let ghost all = ints(d@);
    let mut out: Vec<u8> = Vec::new();
    let n: usize = d.len();
    let mut i: usize = 0;
    proof {
        assert(all.skip(0) =~= all);
        assert(out@ + bytes_of(all) =~= bytes_of(all));
    }
    while n - i >= 4
        invariant
            i <= n,
            n == d@.len(),
            all == ints(d@),
            forall|j: int| 0 <= j < d@.len() ==> #[trigger] d@[j] < 64,
            out@ + bytes_of(all.skip(i as int)) == bytes_of(all),
        decreases n - i,
    {
        let (a, b, c, e) = (d[i], d[i + 1], d[i + 2], d[i + 3]);
        let ghost before = out@;
        out.push(a * 4 + b / 16);
        out.push((b % 16) * 16 + c / 4);
        out.push((c % 4) * 64 + e);
        proof {
            let rest = all.skip(i as int);
            assert(rest.skip(4) =~= all.skip(i + 4));
            assert(out@ + bytes_of(rest.skip(4)) =~= before + bytes_of(rest));
        }
        i = i + 4;
    }
    let ghost before = out@;
    let ghost rest = all.skip(i as int);
    if n - i >= 2 {
        out.push(d[i] * 4 + d[i + 1] / 16);
    }
    if n - i == 3 {
        out.push((d[i + 1] % 16) * 16 + d[i + 2] / 4);
    }
    proof {
        assert(out@ =~= before + bytes_of(rest));
    }
    Ok(out)
}

proof fn lemma_symbol(d: int)
    requires
        0 <= d < 64,
    ensures
        digit(symbol(d)) == Some(d),
        !is_ws(symbol(d)),
        symbol(d) != '=',
{
}

proof fn lemma_digits_push(s: Seq<char>)
    requires
        s.len() > 0,
        s[0] != '=',
        !is_ws(s[0]),
        digit(s[0]) is Some,
        digits_of(s.skip(1)) is Ok,
    ensures
        digits_of(s) == Ok::<Seq<int>, char>(seq![digit(s[0])->0] + digits_of(s.skip(1))->Ok_0),
{
}

/// The digits that `b` is written with.
spec fn written(b: Seq<u8>) -> Seq<int>
    decreases b.len(),
{
    if b.len() == 0 {
        Seq::empty()
    } else if b.len() == 1 {
        seq![(b[0] / 4) as int, ((b[0] % 4) * 16) as int]
    } else if b.len() == 2 {
        seq![
            (b[0] / 4) as int,
            ((b[0] % 4) * 16 + b[1] / 16) as int,
            ((b[1] % 16) * 4) as int,
        ]
    } else {
        seq![
            (b[0] / 4) as int,
            ((b[0] % 4) * 16 + b[1] / 16) as int,
            ((b[1] % 16) * 4 + b[2] / 64) as int,
            (b[2] % 64) as int,
        ] + written(b.skip(3))
    }
}

proof fn lemma_digits_of_run(ds: Seq<int>, tail: Seq<char>)
    requires
        forall|i: int| 0 <= i < ds.len() ==> 0 <= #[trigger] ds[i] < 64,
        digits_of(tail) is Ok,
    ensures
        digits_of(ds.map(|_i: int, d: int| symbol(d)) + tail) == Ok::<Seq<int>, char>(
            ds + digits_of(tail)->Ok_0,
        ),
    decreases ds.len(),
{
    let s = ds.map(|_i: int, d: int| symbol(d)) + tail;
    if ds.len() == 0 {
        assert(s =~= tail);
        assert(ds + digits_of(tail)->Ok_0 =~= digits_of(tail)->Ok_0);
    } else {
        let more = ds.skip(1);
        assert(s.skip(1) =~= more.map(|_i: int, d: int| symbol(d)) + tail);
        assert forall|i: int| 0 <= i < more.len() implies 0 <= #[trigger] more[i] < 64 by {
            assert(more[i] == ds[i + 1]);
        }
        lemma_digits_of_run(more, tail);
        lemma_symbol(ds[0]);
        lemma_digits_push(s);
        assert(seq![ds[0]] + (more + digits_of(tail)->Ok_0) =~= ds + digits_of(tail)->Ok_0);
    }
}

proof fn lemma_digits_of_encoded(b: Seq<u8>)
    ensures
        digits_of(encoded(b)) == Ok::<Seq<int>, char>(written(b)),
        bytes_of(written(b)) == b,
    decreases b.len(),
{
    if b.len() == 0 {
        assert(bytes_of(written(b)) =~= b);
    } else {
        let (head, tail) = if b.len() == 1 {
            (written(b), seq!['=', '='])
        } else if b.len() == 2 {
            (written(b), seq!['='])
        } else {
            (written(b).take(4), encoded(b.skip(3)))
        };
        if b.len() >= 3 {
            lemma_digits_of_encoded(b.skip(3));
            assert(head + written(b.skip(3)) =~= written(b));
        } else {
            assert(head + Seq::<int>::empty() =~= head);
        }
        assert(head.map(|_i: int, d: int| symbol(d)) + tail =~= encoded(b));
        lemma_digits_of_run(head, tail);
        if b.len() >= 3 {
            let w = written(b);
            assert(w.skip(4) =~= written(b.skip(3)));
            assert(bytes_of(w) =~= seq![b[0], b[1], b[2]] + b.skip(3));
        }
        assert(bytes_of(written(b)) =~= b);
    }
}

/// Decoding undoes encoding.
pub proof fn decoding_undoes_encoding(b: Seq<u8>)
    ensures
        digits_of(encoded(b)) is Ok,
        bytes_of(digits_of(encoded(b))->Ok_0) == b,
{
    lemma_digits_of_encoded(b);
}

} // verus!
