//! What holds of the output of every run, and of texts as bytes.

use vstd::prelude::*;

use crate::base64::{digit, digits_of, encoded, symbol};
use crate::exec::pipe::{forwarded, pump_end, pump_step, valid_len, PipeEvent, PumpNext, PumpView};
use crate::exec::shell::{utf16_bytes, utf16_of};
use crate::exec::truncate::{
    after_control, after_string, cjk, head_below, head_is_the_longest_below, portion, size,
    tail_reaching, truncated, without_escapes, ESC,
};
use crate::format::dec;
use crate::numbered::line_count;
use crate::outside::{extendable, hex_text, malformed_len};
use crate::text::{is_ws, trim_start};

verus! {

/// Output up to its limit of tokens is kept whole. Longer output keeps its start and its end
/// with a note between, or its start and a note where the two would meet.
pub proof fn short_output_is_kept_whole(s: Seq<char>, max_tokens: u32, total: u32)
    ensures
        total <= max_tokens ==> truncated(s, max_tokens, total) == s,
        total > max_tokens ==> exists|i: int|
            0 <= i <= s.len() && #[trigger] s.take(i).is_prefix_of(
                truncated(s, max_tokens, total),
            ) && (i < s.len() ==> truncated(s, max_tokens, total)[i] == '\n') && (i == head_below(
                s,
                portion(max_tokens, 7) * 5511,
            ) || i == head_below(s, max_tokens * 5511)),
{
    reveal_strlit("\n...[TRUNCATED: ");
    reveal_strlit("\n\n...[TRUNCATED: ");
    let out = truncated(s, max_tokens, total);
    let head = head_below(s, portion(max_tokens, 7) * 5511);
    let all = head_below(s, max_tokens * 5511);
    head_is_the_longest_below(s, portion(max_tokens, 7) * 5511);
    head_is_the_longest_below(s, max_tokens * 5511);
    let tail = tail_reaching(s, portion(max_tokens, 3) * 5511);
    if total > max_tokens {
        if head >= tail {
            assert(out.take(all) =~= s.take(all));
            assert(s.take(all).is_prefix_of(out));
            assert(out[all] == '\n');
        } else {
            assert(out.take(head) =~= s.take(head));
            assert(s.take(head).is_prefix_of(out));
            assert(out[head] == '\n');
        }
    }
}

/// Where the start and the end that are kept do not meet, the end stands behind the note, but
/// for white space at its front.
pub proof fn end_of_long_output_is_kept(s: Seq<char>, max_tokens: u32, total: u32)
    requires
        total > max_tokens,
        head_below(s, portion(max_tokens, 7) * 5511) < tail_reaching(
            s,
            portion(max_tokens, 3) * 5511,
        ),
    ensures
        ({
            let out = truncated(s, max_tokens, total);
            let end = trim_start(s.skip(tail_reaching(s, portion(max_tokens, 3) * 5511)));
            out.len() >= end.len() && out.skip(out.len() - end.len()) == end
        }),
{
    let out = truncated(s, max_tokens, total);
    let end = trim_start(s.skip(tail_reaching(s, portion(max_tokens, 3) * 5511)));
    assert(out.skip(out.len() - end.len()) =~= end);
}

/// The start gets seven tenths of the limit and the end three, a token at least each.
pub proof fn portions_are_tenths(max_tokens: u32)
    ensures
        max_tokens >= 10 ==> 10 * portion(max_tokens, 7) <= 7 * max_tokens < 10 * portion(
            max_tokens,
            7,
        ) + 10,
        max_tokens >= 10 ==> 10 * portion(max_tokens, 3) <= 3 * max_tokens < 10 * portion(
            max_tokens,
            3,
        ) + 10,
        portion(max_tokens, 7) >= 1,
        portion(max_tokens, 3) >= 1,
{
}

/// Sizes add up, and a character of Chinese or Japanese text counts for more than any other.
pub proof fn sizes_add_up(a: Seq<char>, b: Seq<char>, c: char)
    ensures
        size(a + b) == size(a) + size(b),
        cjk(c) ==> size(seq![c]) == 3300,
        !cjk(c) ==> size(seq![c]) == 1670,
        (c as u32) < 0x3000 ==> !cjk(c),
        0x4e00 <= c as u32 <= 0x9fff ==> cjk(c),
        0x3040 <= c as u32 <= 0x30ff ==> cjk(c),
    decreases b.len(),
{
    reveal_with_fuel(size, 2);
    assert(seq![c].drop_last() =~= Seq::<char>::empty());
    if b.len() == 0 {
        assert(a + b =~= a);
    } else {
        sizes_add_up(a, b.drop_last(), c);
        assert((a + b).drop_last() =~= a + b.drop_last());
        assert((a + b).last() == b.last());
    }
}

/// Text without an escape is kept, and what follows is stripped on its own.
pub proof fn escapes_are_stripped_in_place(a: Seq<char>, b: Seq<char>)
    requires
        !a.contains(ESC),
    ensures
        without_escapes(a + b) == a + without_escapes(b),
    decreases a.len(),
{
    if a.len() == 0 {
        assert(a + b =~= b);
        assert(a + without_escapes(b) =~= without_escapes(b));
    } else {
        let t = a.skip(1);
        assert(!t.contains(ESC)) by {
            if t.contains(ESC) {
                let i = choose|i: int| 0 <= i < t.len() && t[i] == ESC;
                assert(a[i + 1] == ESC);
            }
        }
        assert(a[0] != ESC);
        escapes_are_stripped_in_place(t, b);
        assert((a + b).skip(1) =~= t + b);
        assert(seq![a[0]] + (t + without_escapes(b)) =~= a + without_escapes(b));
    }
}

/// A control sequence is taken out up to the letter that ends it; what follows stays.
pub proof fn control_sequences_are_taken_out(p: Seq<char>, end: char, b: Seq<char>)
    requires
        '@' <= end <= '~',
        forall|i: int| 0 <= i < p.len() ==> !('@' <= #[trigger] p[i] <= '~'),
    ensures
        without_escapes(seq![ESC, '['] + p + seq![end] + b) == without_escapes(b),
{
    let s = seq![ESC, '['] + p + seq![end] + b;
    lemma_control(p, end, b);
    assert(s[0] == ESC && s[1] == '[');
    assert(s.skip(2) =~= p + seq![end] + b);
}

proof fn lemma_control(p: Seq<char>, end: char, b: Seq<char>)
    requires
        '@' <= end <= '~',
        forall|i: int| 0 <= i < p.len() ==> !('@' <= #[trigger] p[i] <= '~'),
    ensures
        after_control(p + seq![end] + b) == b,
    decreases p.len(),
{
    let s = p + seq![end] + b;
    if p.len() == 0 {
        assert(s[0] == end);
        assert(s.skip(1) =~= b);
    } else {
        let t = p.skip(1);
        assert forall|i: int| 0 <= i < t.len() implies !('@' <= #[trigger] t[i] <= '~') by {
            assert(t[i] == p[i + 1]);
        }
        lemma_control(t, end, b);
        assert(s[0] == p[0]);
        assert(s.skip(1) =~= t + seq![end] + b);
    }
}

/// A control string is taken out up to the bell that ends it; what follows stays.
pub proof fn control_strings_are_taken_out(kind: char, p: Seq<char>, b: Seq<char>)
    requires
        kind == ']' || kind == 'P' || kind == '_' || kind == '^',
        !p.contains('\u{7}'),
        !p.contains(ESC),
    ensures
        without_escapes(seq![ESC, kind] + p + seq!['\u{7}'] + b) == without_escapes(b),
        without_escapes(seq![ESC, kind] + p + seq![ESC, '\\'] + b) == without_escapes(b),
{
    let s = seq![ESC, kind] + p + seq!['\u{7}'] + b;
    let t = seq![ESC, kind] + p + seq![ESC, '\\'] + b;
    lemma_string(p, b);
    assert(s[0] == ESC && s[1] == kind);
    assert(s.skip(2) =~= p + seq!['\u{7}'] + b);
    assert(t[0] == ESC && t[1] == kind);
    assert(t.skip(2) =~= p + seq![ESC, '\\'] + b);
}

proof fn lemma_string(p: Seq<char>, b: Seq<char>)
    requires
        !p.contains('\u{7}'),
        !p.contains(ESC),
    ensures
        after_string(p + seq!['\u{7}'] + b) == b,
        after_string(p + seq![ESC, '\\'] + b) == b,
    decreases p.len(),
{
    let s = p + seq!['\u{7}'] + b;
    let t = p + seq![ESC, '\\'] + b;
    if p.len() == 0 {
        assert(s[0] == '\u{7}');
        assert(s.skip(1) =~= b);
        assert(t[0] == ESC && t[1] == '\\');
        assert(t.skip(2) =~= b);
    } else {
        let q = p.skip(1);
        assert(!q.contains('\u{7}') && !q.contains(ESC)) by {
            assert forall|i: int| 0 <= i < q.len() implies q[i] != '\u{7}' && q[i] != ESC by {
                assert(q[i] == p[i + 1]);
                assert(p.contains(p[i + 1]));
            }
        }
        assert(p.contains(p[0]));
        lemma_string(q, b);
        assert(s[0] == p[0] && t[0] == p[0]);
        assert(s.skip(1) =~= q + seq!['\u{7}'] + b);
        assert(t.skip(1) =~= q + seq![ESC, '\\'] + b);
    }
}

/// Any other escape is two characters, and both are taken out.
pub proof fn short_escapes_are_taken_out(c: char, b: Seq<char>)
    requires
        c != '[' && c != ']' && c != 'P' && c != '_' && c != '^',
    ensures
        without_escapes(seq![ESC, c] + b) == without_escapes(b),
{
    let s = seq![ESC, c] + b;
    assert(s[0] == ESC && s[1] == c);
    assert(s.skip(2) =~= b);
}

/// A reader keeps what comes as far as there is room for it, and notes when it had none; it
/// reads on until the output ends, the pipe is closed, there is no more room, or the child has
/// been gone for three tenths of a second.
pub proof fn reader_keeps_what_fits(p: PumpView, event: PipeEvent, running: bool, now: u64)
    requires
        p.captured <= p.max_bytes,
    ensures
        ({
            let (q, shown, next) = pump_step(p, event, running, now);
            let gone = if running {
                None
            } else if p.exit_seen is Some {
                p.exit_seen
            } else {
                Some(now)
            };
            let over = gone is Some && now - gone->0 >= 300;
            &&& q.max_bytes == p.max_bytes
            &&& event is Closed ==> q == p && shown.len() == 0 && next == PumpNext::Stop
            &&& event is Eof ==> q.saw_eof && shown.len() == 0 && next == PumpNext::Stop
                && q.captured == p.captured
            &&& event is Idle ==> shown.len() == 0 && q.captured == p.captured && q.exit_seen == gone
                && (over ==> next == PumpNext::Stop) && (!over ==> next == PumpNext::Sleep)
            &&& event matches PipeEvent::Data(b) ==> {
                let room = p.max_bytes - p.captured;
                &&& q.captured == p.captured + (if b@.len() <= room {
                    b@.len() as int
                } else {
                    room
                })
                &&& q.capped <==> p.capped || b@.len() > room
                &&& q.saw_eof == p.saw_eof
                &&& q.exit_seen == gone
                &&& next == PumpNext::Stop <==> q.capped || over
                &&& next == PumpNext::Read <==> !q.capped && !over
                &&& b@.len() <= room && b@.len() > 0 ==> (shown, q.pending)
                    == crate::exec::pipe::forwarded(p.pending + b@)
            }
        }),
{
    if let PipeEvent::Data(b) = event {
        assert(b@.take(b@.len() as int) =~= b@);
    }
}

/// A reader that ends in the middle of a character shows one replacement character for it, and
/// else nothing.
pub proof fn broken_character_is_shown_once(p: PumpView)
    ensures
        p.pending.len() == 0 ==> pump_end(p).len() == 0,
        p.pending.len() > 0 ==> pump_end(p) == seq![seq!['\u{fffd}']],
{
}

/// The symbols of Base64 are letters, digits, plus and slash, in this order, and each stands
/// for its place among them.
pub proof fn base64_symbols_stand_in_order(d: int)
    requires
        0 <= d < 64,
    ensures
        symbol(d) == "ABCDEFGHIJKLMNOPQRSTUVWXYZabcdefghijklmnopqrstuvwxyz0123456789+/"@[d],
        digit(symbol(d)) == Some(d),
{
    reveal_strlit("ABCDEFGHIJKLMNOPQRSTUVWXYZabcdefghijklmnopqrstuvwxyz0123456789+/");
}

/// Three bytes in Base64 are four symbols: the number that the bytes make up, in digits to the
/// base 64.
pub proof fn three_bytes_are_four_symbols(b: Seq<u8>, rest: Seq<u8>)
    requires
        b.len() == 3,
    ensures
        ({
            let e = encoded(b + rest);
            &&& e.len() >= 4
            &&& e.skip(4) == encoded(rest)
            &&& exists|w: int, x: int, y: int, z: int|
                0 <= w < 64 && 0 <= x < 64 && 0 <= y < 64 && 0 <= z < 64 && b[0] * 65536 + b[1]
                    * 256 + b[2] == w * 262144 + x * 4096 + y * 64 + z && e.take(4) == seq![
                    #[trigger] symbol(w),
                    #[trigger] symbol(x),
                    #[trigger] symbol(y),
                    #[trigger] symbol(z),
                ]
        }),
{
    let s = b + rest;
    let e = encoded(s);
    assert(s.skip(3) =~= rest);
    assert(e.skip(4) =~= encoded(rest));
    let w = (s[0] / 4) as int;
    let x = ((s[0] % 4) * 16 + s[1] / 16) as int;
    let y = ((s[1] % 16) * 4 + s[2] / 64) as int;
    let z = (s[2] % 64) as int;
    assert(e.take(4) =~= seq![symbol(w), symbol(x), symbol(y), symbol(z)]);
    assert(s[0] == b[0] && s[1] == b[1] && s[2] == b[2]);
}

/// One or two bytes that are left over are filled up with equals signs.
pub proof fn rest_is_filled_up(b: Seq<u8>)
    ensures
        b.len() == 0 ==> encoded(b).len() == 0,
        b.len() == 1 ==> encoded(b).len() == 4 && encoded(b)[2] == '=' && encoded(b)[3] == '='
            && encoded(b)[0] == symbol((b[0] / 4) as int) && encoded(b)[1] == symbol(
            (b[0] % 4) * 16,
        ),
        b.len() == 2 ==> encoded(b).len() == 4 && encoded(b)[3] == '=' && encoded(b)[2] != '=',
{
    if b.len() == 2 {
        let d = ((b[1] % 16) * 4) as int;
        base64_symbols_stand_in_order(d);
    }
}

/// A text in UTF-16 is its characters one behind the other: one unit each, or two from U+10000
/// on, the low byte of a unit first.
pub proof fn utf16_goes_character_by_character(a: Seq<char>, b: Seq<char>, c: char)
    ensures
        utf16_bytes(a + b) == utf16_bytes(a) + utf16_bytes(b),
        (c as u32) < 0x10000 ==> utf16_bytes(seq![c]).len() == 2 && utf16_bytes(seq![c])[0] as int
            + 256 * utf16_bytes(seq![c])[1] as int == c as u32,
        c as u32 >= 0x10000 ==> {
            let u = utf16_bytes(seq![c]);
            let high = u[0] as int + 256 * u[1] as int;
            let low = u[2] as int + 256 * u[3] as int;
            &&& u.len() == 4
            &&& 0xd800 <= high < 0xdc00
            &&& 0xdc00 <= low < 0xe000
            &&& c as u32 == 0x10000 + (high - 0xd800) * 0x400 + (low - 0xdc00)
        },
    decreases a.len(),
{
    vstd::utf8::char_is_scalar(c);
    reveal_with_fuel(utf16_bytes, 2);
    assert(seq![c].skip(1) =~= Seq::<char>::empty());
    assert(utf16_bytes(seq![c]) =~= utf16_of(c));
    if a.len() == 0 {
        assert(a + b =~= b);
        assert(utf16_bytes(a) + utf16_bytes(b) =~= utf16_bytes(b));
    } else {
        utf16_goes_character_by_character(a.skip(1), b, c);
        assert((a + b).skip(1) =~= a.skip(1) + b);
        assert(utf16_bytes(a + b) =~= utf16_bytes(a) + utf16_bytes(b));
    }
}

/// Bytes in hexadecimal have two digits each, the high half first.
pub proof fn each_byte_has_two_digits(bytes: Seq<u8>, i: int)
    requires
        0 <= i < bytes.len(),
    ensures
        hex_text(bytes).len() == 2 * bytes.len(),
        crate::laws::service::digit_value(hex_text(bytes)[2 * i]) * 16
            + crate::laws::service::digit_value(hex_text(bytes)[2 * i + 1]) == bytes[i],
{
}

/// Bytes that no character can begin with are shown as one replacement character, and what
/// follows them is shown on its own; bytes that a character may still be made of wait.
pub proof fn malformed_bytes_are_replaced(p: Seq<u8>)
    requires
        p.len() > 0,
        valid_len(p) == 0,
    ensures
        extendable(p) ==> forwarded(p).0.len() == 0 && forwarded(p).1 == p,
        !extendable(p) && 0 < malformed_len(p) <= p.len() ==> forwarded(p).0 == seq![
            seq!['\u{fffd}'],
        ] + forwarded(p.skip(malformed_len(p) as int)).0 && forwarded(p).1 == forwarded(
            p.skip(malformed_len(p) as int),
        ).1,
{
}

/// The note in cut output says how many tokens there were, how many are kept, and how many
/// lines are left out.
pub proof fn cut_output_says_what_is_left_out(s: Seq<char>, max_tokens: u32, total: u32)
    requires
        total > max_tokens,
    ensures
        ({
            let head = head_below(s, portion(max_tokens, 7) * 5511);
            let tail = tail_reaching(s, portion(max_tokens, 3) * 5511);
            let counts = dec(max_tokens as nat) + "/"@ + dec(total as nat);
            &&& head < tail ==> (s.take(head) + "\n\n...[TRUNCATED: "@ + counts + " tokens, "@ + dec(
                line_count(s.subrange(head, tail)),
            ) + " lines dropped."@).is_prefix_of(truncated(s, max_tokens, total))
            &&& head >= tail ==> (s.take(head_below(s, max_tokens * 5511)) + "\n...[TRUNCATED: "@
                + counts + " tokens."@).is_prefix_of(truncated(s, max_tokens, total))
        }),
{
    reveal_strlit(" lines dropped.");
    reveal_strlit(" lines dropped. Call exec again with narrower argv or a filtering command.]\n\n");
    reveal_strlit(" tokens.");
    reveal_strlit(" tokens. Call exec again with narrower argv or a filtering command.]");
    let head = head_below(s, portion(max_tokens, 7) * 5511);
    let tail = tail_reaching(s, portion(max_tokens, 3) * 5511);
    let counts = dec(max_tokens as nat) + "/"@ + dec(total as nat);
    let out = truncated(s, max_tokens, total);
    if head < tail {
        let front = s.take(head) + "\n\n...[TRUNCATED: "@ + counts + " tokens, "@ + dec(
            line_count(s.subrange(head, tail)),
        );
        let more = " lines dropped. Call exec again with narrower argv or a filtering command.]\n\n"@;
        assert(out =~= front + more + trim_start(s.skip(tail)));
        assert(more.take(15) =~= " lines dropped."@);
        assert(out.take((front.len() + 15) as int) =~= front + " lines dropped."@);
    } else {
        let front = s.take(head_below(s, max_tokens * 5511)) + "\n...[TRUNCATED: "@ + counts;
        let more = " tokens. Call exec again with narrower argv or a filtering command.]"@;
        assert(out =~= front + more);
        assert(more.take(8) =~= " tokens."@);
        assert(out.take((front.len() + 8) as int) =~= front + " tokens."@);
    }
}


/// Base64 is read up to its first equals sign: white space is skipped, and any other character
/// that is no digit is an error.
pub proof fn base64_is_read_strictly(c: char, s: Seq<char>)
    ensures
        c == '=' ==> digits_of(seq![c] + s) == Ok::<Seq<int>, char>(Seq::empty()),
        c != '=' && is_ws(c) ==> digits_of(seq![c] + s) == digits_of(s),
        c != '=' && !is_ws(c) && digit(c) is None ==> digits_of(seq![c] + s) == Err::<
            Seq<int>,
            char,
        >(c),
        c != '=' && !is_ws(c) ==> (digit(c) matches Some(d) ==> {
            &&& digits_of(s) matches Ok(more) ==> digits_of(seq![c] + s) == Ok::<Seq<int>, char>(
                seq![d] + more,
            )
            &&& digits_of(s) matches Err(x) ==> digits_of(seq![c] + s) == Err::<Seq<int>, char>(x)
        }),
{
    assert((seq![c] + s).skip(1) =~= s);
    assert((seq![c] + s)[0] == c);
}

/// The characters that count for more: those of Chinese and Japanese text, and full-width
/// punctuation.
pub proof fn wide_characters_are_these(c: char)
    ensures
        cjk(c) <==> {
            let n = c as u32;
            ||| 0x3000 <= n < 0x3040
            ||| 0x3040 <= n < 0x3100
            ||| 0x3400 <= n < 0x4dc0
            ||| 0x4e00 <= n < 0xa000
            ||| 0xff00 <= n < 0xfff0
        },
{
}

} // verus!
