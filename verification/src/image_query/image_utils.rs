//! Kinds of images, and images as text.

use vstd::prelude::*;

use crate::base64::{
    base64_encode, bytes_of, decoding_undoes_encoding, digit, digits_of, encoded,
};
use crate::format::{byte_len, chars_fitting, fitting};
use crate::outside::{
    decodable, long_at, plain_entry, plain_tiff, png_convert, png_signature, short_at,
};
use crate::search::{find_at, find_from, lemma_find_from, starts_with};
use crate::text::{chars_of, slice_of, string_of};

verus! {

/// The kind of an image, by its first bytes; PNG when they say nothing.
pub open spec fn mime_of(b: Seq<u8>) -> Seq<char> {
    if b.len() < 4 {
        "image/png"@
    } else if b[0] == 0xff && b[1] == 0xd8 && b[2] == 0xff {
        "image/jpeg"@
    } else if b[0] == 0x89 && b[1] == 0x50 && b[2] == 0x4e && b[3] == 0x47 {
        "image/png"@
    } else if b[0] == 0x47 && b[1] == 0x49 && b[2] == 0x46 {
        "image/gif"@
    } else if b.len() >= 12 && b[0] == 0x52 && b[1] == 0x49 && b[2] == 0x46 && b[3] == 0x46 && b[8]
        == 0x57 && b[9] == 0x45 && b[10] == 0x42 && b[11] == 0x50 {
        "image/webp"@
    } else if b[0] == 0x42 && b[1] == 0x4d {
        "image/bmp"@
    } else if (b[0] == 0x49 && b[1] == 0x49 && b[2] == 0x2a && b[3] == 0x00) || (b[0] == 0x4d
        && b[1] == 0x4d && b[2] == 0x00 && b[3] == 0x2a) {
        "image/tiff"@
    } else {
        "image/png"@
    }
}

/// The kind of an image, by its first bytes.
pub fn detect_mime_from_bytes(bytes: &[u8]) -> (r: &'static str)
    ensures
        r@ == mime_of(bytes@),
{
    if bytes.len() < 4 {
        return "image/png";
    }
    if bytes[0] == 0xff && bytes[1] == 0xd8 && bytes[2] == 0xff {
        return "image/jpeg";
    }
    if bytes[0] == 0x89 && bytes[1] == 0x50 && bytes[2] == 0x4e && bytes[3] == 0x47 {
        return "image/png";
    }
    if bytes[0] == 0x47 && bytes[1] == 0x49 && bytes[2] == 0x46 {
        return "image/gif";
    }
    if bytes.len() >= 12 && bytes[0] == 0x52 && bytes[1] == 0x49 && bytes[2] == 0x46 && bytes[3]
        == 0x46 && bytes[8] == 0x57 && bytes[9] == 0x45 && bytes[10] == 0x42 && bytes[11] == 0x50 {
        return "image/webp";
    }
    if bytes[0] == 0x42 && bytes[1] == 0x4d {
        return "image/bmp";
    }
    if (bytes[0] == 0x49 && bytes[1] == 0x49 && bytes[2] == 0x2a && bytes[3] == 0x00) || (bytes[0]
        == 0x4d && bytes[1] == 0x4d && bytes[2] == 0x00 && bytes[3] == 0x2a) {
        return "image/tiff";
    }
    "image/png"
}

/// The kind that a data URI states: what stands between `data:` and the next `;`, if
/// that is a kind of image.
pub open spec fn uri_mime(data: Seq<char>) -> Option<Seq<char>> {
    let rest = data.skip(5);
    let end = find_from(rest, ";"@, 0);
    if "data:"@.is_prefix_of(data) && end >= 0 && "image/"@.is_prefix_of(rest.take(end)) {
        Some(rest.take(end))
    } else {
        None
    }
}

/// The kind that a data URI states.
pub fn detect_mime_from_data_uri(data: &str) -> (r: Option<String>)
    ensures
        match r {
            Some(m) => uri_mime(data@) == Some(m@),
            None => uri_mime(data@) is None,
        },
{
    let s: Vec<char> = chars_of(data);
    proof {
        reveal_strlit("data:");
        assert("data:"@.len() == 5);
    }
    if !starts_with(s.as_slice(), chars_of("data:").as_slice()) {
        return None;
    }
    let rest: Vec<char> = slice_of(s.as_slice(), 5, s.len());
    proof {
        assert(rest@ =~= data@.skip(5));
    }
    match find_at(rest.as_slice(), chars_of(";").as_slice(), 0) {
        None => None,
        Some(end) => {
            proof {
                lemma_find_from(rest@, ";"@, 0);
            }
            let mime: Vec<char> = slice_of(rest.as_slice(), 0, end);
            proof {
                assert(mime@ =~= rest@.take(end as int));
            }
            if starts_with(mime.as_slice(), chars_of("image/").as_slice()) {
                Some(string_of(mime.as_slice()))
            } else {
                None
            }
        },
    }
}

/// The digits of a Base64 text up to its first `=`, all else left out.
pub open spec fn loose_digits(s: Seq<char>) -> Seq<int>
    decreases s.len(),
{
    if s.len() == 0 || s[0] == '=' {
        Seq::empty()
    } else {
        match digit(s[0]) {
            Some(d) => seq![d] + loose_digits(s.skip(1)),
            None => loose_digits(s.skip(1)),
        }
    }
}

/// Reads Base64 up to its first `=`, skipping whatever is no digit.
pub fn simple_base64_decode(input: &[char]) -> (out: Vec<u8>)
    ensures
        out@ == bytes_of(loose_digits(input@)),
{
    let d: Vec<u8> = collect_loose(input);
    let ghost all = loose_digits(input@);
    let mut out: Vec<u8> = Vec::new();
    let n: usize = d.len();
    let mut i: usize = 0;
    proof {
        assert(all.skip(0) =~= all);
        assert(out@ + bytes_of(all) =~= bytes_of(all));
    }
    while n - i >= 4
        invariant
            i <= n,
            n == d@.len(),
            n == all.len(),
            forall|j: int| 0 <= j < n ==> (#[trigger] d@[j]) < 64 && all[j] == d@[j] as int,
            out@ + bytes_of(all.skip(i as int)) == bytes_of(all),
        decreases n - i,
    {
        let (a, b, c, e) = (d[i], d[i + 1], d[i + 2], d[i + 3]);
        let ghost before = out@;
        out.push(a * 4 + b / 16);
        out.push((b % 16) * 16 + c / 4);
        out.push((c % 4) * 64 + e);
        proof {
            let rest = all.skip(i as int);
            assert(rest.skip(4) =~= all.skip(i + 4));
            assert(out@ + bytes_of(rest.skip(4)) =~= before + bytes_of(rest));
        }
        i = i + 4;
    }
    let ghost before = out@;
    let ghost rest = all.skip(i as int);
    if n - i >= 2 {
        out.push(d[i] * 4 + d[i + 1] / 16);
    }
    if n - i == 3 {
        out.push((d[i + 1] % 16) * 16 + d[i + 2] / 4);
    }
    proof {
        assert(out@ =~= before + bytes_of(rest));
    }
    out
}

fn collect_loose(s: &[char]) -> (d: Vec<u8>)
    ensures
        d@.len() == loose_digits(s@).len(),
        forall|j: int|
            0 <= j < d@.len() ==> (#[trigger] d@[j]) < 64 && loose_digits(s@)[j] == d@[j] as int,
{
    let mut d: Vec<u8> = Vec::new();
    let mut i: usize = 0;
    let ghost done: Seq<int> = Seq::empty();
    proof {
        assert(s@.skip(0) =~= s@);
        assert(done + loose_digits(s@) =~= loose_digits(s@));
    }
    while i < s.len() && s[i] != '='
        invariant
            i <= s@.len(),
            done.len() == d@.len(),
            forall|j: int| 0 <= j < d@.len() ==> (#[trigger] d@[j]) < 64 && done[j] == d@[j] as int,
            loose_digits(s@) == done + loose_digits(s@.skip(i as int)),
        decreases s@.len() - i,
    {
        let ghost rest = s@.skip(i as int);
        proof {
            assert(rest.skip(1) =~= s@.skip(i + 1));
        }
        match crate::base64::digit_of(s[i]) {
            Some(v) => {
                d.push(v);
                proof {
                    let before = done;
                    done = done.push(v as int);
                    assert(done + loose_digits(rest.skip(1)) =~= before + (seq![v as int]
                        + loose_digits(rest.skip(1))));
                }
            },
            None => {},
        }
        i = i + 1;
    }
    proof {
        assert(done + Seq::<int>::empty() =~= done);
    }
    d
}

/// The kind of an image given as text: what its data URI states, else what its first
/// bytes say.
pub open spec fn mime_of_text(data: Seq<char>) -> Seq<char> {
    match uri_mime(data) {
        Some(m) => m,
        None => mime_of(bytes_of(loose_digits(data.take(fitting(data, 16) as int)))),
    }
}

/// The kind of an image given as text.
pub fn detect_mime(data: &str) -> (r: String)
    ensures
        r@ == mime_of_text(data@),
{
    match detect_mime_from_data_uri(data) {
        Some(m) => m,
        None => {
            let s: Vec<char> = chars_of(data);
            let k: usize = chars_fitting(s.as_slice(), 16);
            let head: Vec<char> = slice_of(s.as_slice(), 0, k);
            proof {
                assert(head@ =~= data@.take(k as int));
            }
            let bytes: Vec<u8> = simple_base64_decode(head.as_slice());
            detect_mime_from_bytes(bytes.as_slice()).to_owned()
        },
    }
}

/// Bytes in Base64.
pub fn encode_base64(bytes: &[u8]) -> (out: String)
    ensures
        out@ == encoded(bytes@),
{
    base64_encode(bytes)
}

/// An image to send, and its kind: the PNG it was converted to, or the image as it is
/// when it could not be.
pub fn keep_standard(raw: &[u8], converted: Option<Vec<u8>>) -> (r: (Vec<u8>, String))
    ensures
        match converted {
            Some(png) => r.0@ == png@ && r.1@ == "image/png"@,
            None => r.0@ == raw@ && r.1@ == mime_of(raw@),
        },
{
    match converted {
        Some(png) => (png, "image/png".to_owned()),
        None => (copy_bytes(raw), detect_mime_from_bytes(raw).to_owned()),
    }
}

fn copy_bytes(raw: &[u8]) -> (out: Vec<u8>)
    ensures
        out@ == raw@,
{
    let mut out: Vec<u8> = Vec::new();
    out.extend_from_slice(raw);
    proof {
        assert(out@ =~= raw@);
    }
    out
}

fn short_of(raw: &[u8], i: usize, big_endian: bool) -> (r: u16)
    requires
        i + 2 <= raw@.len(),
    ensures
        r == short_at(raw@, i as int, big_endian),
{
    if big_endian {
        0x100 * raw[i] as u16 + raw[i + 1] as u16
    } else {
        raw[i] as u16 + 0x100 * raw[i + 1] as u16
    }
}

fn long_of(raw: &[u8], i: usize, big_endian: bool) -> (r: u32)
    requires
        i + 4 <= raw@.len(),
    ensures
        r == long_at(raw@, i as int, big_endian),
{
    let n: usize = raw.len();
    let high: usize = if big_endian { i } else { i + 2 };
    let low: usize = if big_endian { i + 2 } else { i };
    0x1_0000 * short_of(raw, high, big_endian) as u32 + short_of(raw, low, big_endian) as u32
}

fn is_plain_entry(raw: &[u8], dir: usize, k: usize, big_endian: bool) -> (r: bool)
    requires
        dir + 14 + 12 * k <= raw@.len(),
    ensures
        r == plain_entry(raw@, dir as int, k as int, big_endian),
{
    let n: usize = raw.len();
    let at: usize = dir + 2 + 12 * k;
    let tag: u16 = short_of(raw, at, big_endian);
    let one_short: bool = short_of(raw, at + 2, big_endian) == 3 && long_of(raw, at + 4, big_endian)
        == 1;
    let value: u16 = short_of(raw, at + 8, big_endian);
    if tag == 324 || tag == 325 {
        false
    } else if tag == 284 {
        one_short && value == 1
    } else if tag == 259 {
        one_short && (value == 1 || value == 5 || value == 32773)
    } else {
        true
    }
}

/// Whether an image is a TIFF whose picture is stored in strips of whole pixels.
pub fn is_plain_tiff(raw: &[u8]) -> (r: bool)
    ensures
        r == plain_tiff(raw@),
{
    let n: usize = raw.len();
    if n < 8 {
        return false;
    }
    let big_endian: bool = raw[0] == 0x4d;
    let little: bool = raw[0] == 0x49 && raw[1] == 0x49 && raw[2] == 0x2a && raw[3] == 0x00;
    let big: bool = raw[0] == 0x4d && raw[1] == 0x4d && raw[2] == 0x00 && raw[3] == 0x2a;
    proof {
        let t = raw@.take(4);
        assert(t[0] == raw@[0] && t[1] == raw@[1] && t[2] == raw@[2] && t[3] == raw@[3]);
        assert(little ==> t =~= seq![0x49u8, 0x49, 0x2a, 0x00]);
        assert(big ==> t =~= seq![0x4du8, 0x4d, 0x00, 0x2a]);
    }
    if !little && !big {
        return false;
    }
    let dir: usize = long_of(raw, 4, big_endian) as usize;
    if dir > n - 2 {
        return false;
    }
    let entries: usize = short_of(raw, dir, big_endian) as usize;
    if entries > (n - 2 - dir) / 12 {
        return false;
    }
    let mut k: usize = 0;
    while k < entries
        invariant
            n == raw@.len(),
            big_endian == (raw@[0] == 0x4d),
            dir == long_at(raw@, 4, big_endian),
            entries == short_at(raw@, dir as int, big_endian),
            k <= entries,
            dir + 2 + 12 * entries <= n,
            forall|j: int| 0 <= j < k ==> #[trigger] plain_entry(raw@, dir as int, j, big_endian),
        decreases entries - k,
    {
        if !is_plain_entry(raw, dir, k, big_endian) {
            proof {
                assert(!plain_entry(raw@, dir as int, k as int, big_endian));
            }
            return false;
        }
        k = k + 1;
    }
    true
}

/// Whether an image can be handed to the decoders.
pub fn is_decodable(raw: &[u8]) -> (r: bool)
    ensures
        r == decodable(raw@),
{
    let gif: bool = raw.len() >= 6 && raw[0] == 0x47 && raw[1] == 0x49 && raw[2] == 0x46 && raw[3]
        == 0x38 && (raw[4] == 0x37 || raw[4] == 0x39) && raw[5] == 0x61;
    let bmp: bool = raw.len() >= 2 && raw[0] == 0x42 && raw[1] == 0x4d;
    proof {
        let b = raw@;
        if b.len() >= 6 {
            assert forall|i: int| 0 <= i < 6 implies b.take(6)[i] == b[i] by {}
            if gif {
                if b[4] == 0x37 {
                    assert(b.take(6) =~= seq![0x47u8, 0x49, 0x46, 0x38, 0x37, 0x61]);
                } else {
                    assert(b.take(6) =~= seq![0x47u8, 0x49, 0x46, 0x38, 0x39, 0x61]);
                }
            } else {
                assert(b.take(6)[0] == b[0] && b.take(6)[1] == b[1] && b.take(6)[2] == b[2]);
                assert(b.take(6)[3] == b[3] && b.take(6)[4] == b[4] && b.take(6)[5] == b[5]);
            }
        }
        if b.len() >= 2 {
            assert(b.take(2)[0] == b[0] && b.take(2)[1] == b[1]);
            if bmp {
                assert(b.take(2) =~= seq![0x42u8, 0x4d]);
            }
        }
    }
    gif || bmp || is_plain_tiff(raw)
}

/// An image as a PNG; one that cannot be read stays as it is, and so does one that is not
/// handed to the decoders, such as a PNG. Nothing is said of which of the
/// images that are handed over can be read, nor of the pixels: both rest on the memory of
/// the machine, and on the formats that the process has registered with the image library.
pub fn standardize_image(raw_bytes: &[u8]) -> (r: (Vec<u8>, String))
    ensures
        mime_of(r.0@) == r.1@,
        r.0@ == raw_bytes@ || r.1@ == "image/png"@ && png_signature().is_prefix_of(r.0@),
        !decodable(raw_bytes@) ==> r.0@ == raw_bytes@,
{
    if !is_decodable(raw_bytes) {
        return keep_standard(raw_bytes, None);
    }
    let converted: Option<Vec<u8>> = png_convert(raw_bytes);
    proof {
        if converted is Some {
            let png = converted->0@;
            assert forall|i: int| 0 <= i < 8 implies png[i] == png_signature()[i] by {
                assert(png.take(8)[i] == png[i]);
            }
        }
    }
    keep_standard(raw_bytes, converted)
}

proof fn lemma_loose_digits(s: Seq<char>)
    requires
        digits_of(s) is Ok,
    ensures
        loose_digits(s) == digits_of(s)->Ok_0,
    decreases s.len(),
{
    if s.len() > 0 && s[0] != '=' {
        lemma_loose_digits(s.skip(1));
    }
}

/// Decoding undoes encoding, also where everything that is no digit is skipped.
pub proof fn loose_decoding_undoes_encoding(b: Seq<u8>)
    ensures
        bytes_of(loose_digits(encoded(b))) == b,
{
    decoding_undoes_encoding(b);
    lemma_loose_digits(encoded(b));
}

/// Whether a character can stand in Base64.
pub open spec fn base64_char(c: char) -> bool {
    digit(c) is Some || c == '='
}

proof fn lemma_encoded_chars(b: Seq<u8>)
    ensures
        forall|i: int| 0 <= i < encoded(b).len() ==> base64_char(#[trigger] encoded(b)[i]),
    decreases b.len(),
{
    if b.len() > 3 || b.len() == 3 {
        lemma_encoded_chars(b.skip(3));
        let e = encoded(b);
        assert forall|i: int| 0 <= i < e.len() implies base64_char(#[trigger] e[i]) by {
            if i >= 4 {
                assert(e[i] == encoded(b.skip(3))[i - 4]);
            }
        }
    }
}

proof fn lemma_ascii_len(s: Seq<char>)
    requires
        forall|i: int| 0 <= i < s.len() ==> base64_char(#[trigger] s[i]),
    ensures
        byte_len(s) == s.len(),
    decreases s.len(),
{
    if s.len() > 0 {
        let f = s.drop_last();
        assert forall|i: int| 0 <= i < f.len() implies base64_char(#[trigger] f[i]) by {
            assert(f[i] == s[i]);
        }
        lemma_ascii_len(f);
        assert(base64_char(s[s.len() - 1]));
    }
}

proof fn lemma_ascii_fitting(s: Seq<char>, max: nat)
    requires
        forall|i: int| 0 <= i < s.len() ==> base64_char(#[trigger] s[i]),
    ensures
        fitting(s, max) == (if s.len() <= max {
            s.len()
        } else {
            max
        }),
    decreases s.len(),
{
    lemma_ascii_len(s);
    if s.len() > max {
        let f = s.drop_last();
        assert forall|i: int| 0 <= i < f.len() implies base64_char(#[trigger] f[i]) by {
            assert(f[i] == s[i]);
        }
        lemma_ascii_fitting(f, max);
    }
}

proof fn lemma_encoded_head(b: Seq<u8>, k: nat)
    requires
        3 * k <= b.len(),
    ensures
        encoded(b).len() >= 4 * k,
        encoded(b).take(4 * k as int) == encoded(b.take(3 * k as int)),
    decreases k,
{
    if k == 0 {
        assert(encoded(b).take(0) =~= encoded(b.take(0)));
    } else {
        let rest = b.skip(3);
        lemma_encoded_head(rest, (k - 1) as nat);
        let h = b.take(3 * k as int);
        assert(h.skip(3) =~= rest.take(3 * k - 3));
        assert(encoded(b).take(4 * k as int) =~= encoded(b).take(4) + encoded(rest).take(
            4 * k - 4,
        ));
        assert(encoded(h) =~= encoded(b).take(4) + encoded(h.skip(3)));
    }
}

proof fn lemma_encoded_len(b: Seq<u8>)
    ensures
        b.len() <= 12 ==> encoded(b).len() <= 16,
{
    reveal_with_fuel(encoded, 6);
}

/// The kind of an image can be told from its Base64 text as well as from its bytes.
pub proof fn kind_survives_encoding(b: Seq<u8>)
    ensures
        mime_of_text(encoded(b)) == mime_of(b),
{
    let e = encoded(b);
    lemma_encoded_chars(b);
    assert(uri_mime(e) is None) by {
        reveal_strlit("data:");
        if "data:"@.is_prefix_of(e) {
            assert(e[4] == "data:"@[4]);
            assert(base64_char(e[4]));
        }
    }
    lemma_ascii_fitting(e, 16);
    if b.len() <= 12 {
        lemma_encoded_len(b);
        assert(e.take(e.len() as int) =~= e);
        loose_decoding_undoes_encoding(b);
    } else {
        lemma_encoded_head(b, 4);
        loose_decoding_undoes_encoding(b.take(12));
    }
}

} // verus!
