//! Cutting a command's output to a number of tokens, and taking terminal escapes
//! out of it.

use vstd::prelude::*;

use crate::format::{dec, decimal, decimal_size};
use crate::numbered::{count_lines, line_count};
use crate::text::{
    chars_of, leading_whitespace, lemma_leading_ws_bounds, slice_of, string_of, trim_start,
};

verus! {

/// A character of Chinese or Japanese text, or full-width punctuation.
pub open spec fn cjk(c: char) -> bool {
    ||| '\u{4e00}' <= c <= '\u{9fff}'
    ||| '\u{3400}' <= c <= '\u{4dbf}'
    ||| '\u{3000}' <= c <= '\u{303f}'
    ||| '\u{ff00}' <= c <= '\u{ffef}'
    ||| '\u{3040}' <= c <= '\u{30ff}'
}

/// Whether a character is one of Chinese or Japanese text, or full-width
/// punctuation.
pub fn is_cjk(c: char) -> (r: bool)
    ensures
        r == cjk(c),
{
    ('\u{4e00}' <= c && c <= '\u{9fff}') || ('\u{3400}' <= c && c <= '\u{4dbf}') || ('\u{3000}' <= c
        && c <= '\u{303f}') || ('\u{ff00}' <= c && c <= '\u{ffef}') || ('\u{3040}' <= c && c
        <= '\u{30ff}')
}

/// How many parts make a token. A token is estimated at 3.3 characters, or at 1.67
/// characters of Chinese or Japanese text, so that all shares are whole numbers.
pub const TOKEN: u64 = 5511;

/// A character's share of a token.
pub open spec fn share(c: char) -> int {
    if cjk(c) {
        3300
    } else {
        1670
    }
}

/// The estimated size of a text, in parts of a token.
pub open spec fn size(s: Seq<char>) -> int
    decreases s.len(),
{
    if s.len() == 0 {
        0
    } else {
        size(s.drop_last()) + share(s.last())
    }
}

/// How many leading characters stay below a size.
pub open spec fn head_below(s: Seq<char>, budget: int) -> int
    decreases s.len(),
{
    if s.len() == 0 || share(s[0]) >= budget {
        0
    } else {
        1 + head_below(s.skip(1), budget - share(s[0]))
    }
}

/// Where the shortest end of a text begins that reaches a size; 0 when none does.
pub open spec fn tail_reaching(s: Seq<char>, budget: int) -> int
    decreases s.len(),
{
    if s.len() == 0 {
        0
    } else if share(s.last()) >= budget {
        s.len() - 1
    } else {
        tail_reaching(s.drop_last(), budget - share(s.last()))
    }
}

proof fn lemma_size_concat(a: Seq<char>, b: Seq<char>)
    ensures
        size(a + b) == size(a) + size(b),
    decreases b.len(),
{
    if b.len() == 0 {
        assert(a + b =~= a);
    } else {
        lemma_size_concat(a, b.drop_last());
        assert((a + b).drop_last() =~= a + b.drop_last());
    }
}

proof fn lemma_size_one(c: char)
    ensures
        size(seq![c]) == share(c),
{
    reveal_with_fuel(size, 2);
    assert(seq![c].drop_last().len() == 0);
}

/// The head that is kept is below the size, and the next character would reach it.
pub proof fn head_is_the_longest_below(s: Seq<char>, budget: int)
    ensures
        0 <= head_below(s, budget) <= s.len(),
        budget > 0 ==> size(s.take(head_below(s, budget))) < budget,
        head_below(s, budget) < s.len() ==> size(s.take(head_below(s, budget) + 1)) >= budget,
    decreases s.len(),
{
    if s.len() == 0 {
    } else {
        lemma_size_one(s[0]);
        if share(s[0]) >= budget {
            assert(s.take(1) =~= seq![s[0]]);
            assert(s.take(0).len() == 0);
        } else {
            let k = head_below(s.skip(1), budget - share(s[0]));
            head_is_the_longest_below(s.skip(1), budget - share(s[0]));
            assert(s.take(k + 1) =~= seq![s[0]] + s.skip(1).take(k));
            lemma_size_concat(seq![s[0]], s.skip(1).take(k));
            if k + 1 < s.len() {
                assert(s.take(k + 2) =~= seq![s[0]] + s.skip(1).take(k + 1));
                lemma_size_concat(seq![s[0]], s.skip(1).take(k + 1));
            }
        }
    }
}

/// The tail that is kept reaches the size, or is the whole text; one character less
/// would not reach it.
pub proof fn tail_is_the_shortest_reaching(s: Seq<char>, budget: int)
    ensures
        s.len() > 0 ==> 0 <= tail_reaching(s, budget) < s.len(),
        tail_reaching(s, budget) > 0 ==> size(s.skip(tail_reaching(s, budget))) >= budget,
        s.len() > 0 && budget > 0 ==> size(s.skip(tail_reaching(s, budget) + 1)) < budget,
    decreases s.len(),
{
    if s.len() > 0 {
        let n = s.len() as int;
        let c = s.last();
        lemma_size_one(c);
        if share(c) >= budget {
            assert(s.skip(n - 1) =~= seq![c]);
            assert(s.skip(n).len() == 0);
        } else {
            let f = s.drop_last();
            let k = tail_reaching(f, budget - share(c));
            tail_is_the_shortest_reaching(f, budget - share(c));
            if f.len() > 0 {
                assert(s.skip(k) =~= f.skip(k) + seq![c]);
                lemma_size_concat(f.skip(k), seq![c]);
                assert(s.skip(k + 1) =~= f.skip(k + 1) + seq![c]);
                lemma_size_concat(f.skip(k + 1), seq![c]);
            } else {
                assert(s.skip(1).len() == 0);
            }
        }
    }
}

/// How many leading characters of a text stay below `target_tokens`.
pub fn find_token_boundary(text: &[char], target_tokens: u32) -> (k: usize)
    ensures
        k == head_below(text@, target_tokens * TOKEN),
        k <= text@.len(),
{
    let mut left: u64 = target_tokens as u64 * TOKEN;
    let mut i: usize = 0;
    proof {
        assert(text@.skip(0) =~= text@);
        head_is_the_longest_below(text@, target_tokens * TOKEN);
    }
    while i < text.len()
        invariant
            i <= text@.len(),
            head_below(text@, target_tokens * TOKEN) == i + head_below(
                text@.skip(i as int),
                left as int,
            ),
            head_below(text@, target_tokens * TOKEN) <= text@.len(),
        decreases text@.len() - i,
    {
        let w: u64 = if is_cjk(text[i]) {
            3300
        } else {
            1670
        };
        proof {
            assert(text@.skip(i as int).skip(1) =~= text@.skip(i + 1));
        }
        if w >= left {
            return i;
        }
        left = left - w;
        i = i + 1;
    }
    i
}

/// Where the shortest end of a text begins that reaches `target_tokens`.
pub fn find_token_boundary_reverse(text: &[char], target_tokens: u32) -> (k: usize)
    ensures
        k == tail_reaching(text@, target_tokens * TOKEN),
        k <= text@.len(),
{
    let mut left: u64 = target_tokens as u64 * TOKEN;
    let mut i: usize = text.len();
    proof {
        assert(text@.take(text@.len() as int) =~= text@);
    }
    while i > 0
        invariant
            i <= text@.len(),
            tail_reaching(text@, target_tokens * TOKEN) == tail_reaching(
                text@.take(i as int),
                left as int,
            ),
        decreases i,
    {
        let w: u64 = if is_cjk(text[i - 1]) {
            3300
        } else {
            1670
        };
        proof {
            assert(text@.take(i as int).drop_last() =~= text@.take(i - 1));
            assert(text@.take(i as int).last() == text@[i - 1]);
        }
        if w >= left {
            return i - 1;
        }
        left = left - w;
        i = i - 1;
    }
    0
}

/// A tenth of `max_tokens` times `tenths`, at least 1.
pub open spec fn portion(max_tokens: u32, tenths: int) -> int {
    let n = max_tokens * tenths / 10;
    if n < 1 {
        1
    } else {
        n
    }
}

fn portion_of(max_tokens: u32, tenths: u32) -> (n: u32)
    requires
        tenths <= 10,
    ensures
        n == portion(max_tokens, tenths as int),
{
    proof {
        assert(max_tokens * tenths <= max_tokens * 10) by (nonlinear_arith)
            requires
                tenths <= 10,
        ;
    }
    let n: u64 = max_tokens as u64 * tenths as u64 / 10;
    if n < 1 {
        1
    } else {
        n as u32
    }
}

/// What is kept of a text that holds `total` tokens: all of it up to `max_tokens`;
/// above that a head of seven tenths, a note and a tail of three tenths; only a head
/// and a note when the two would meet.
pub open spec fn truncated(s: Seq<char>, max_tokens: u32, total: u32) -> Seq<char> {
    let head = head_below(s, portion(max_tokens, 7) * TOKEN);
    let tail = tail_reaching(s, portion(max_tokens, 3) * TOKEN);
    if total <= max_tokens {
        s
    } else if head >= tail {
        s.take(head_below(s, max_tokens * TOKEN)) + "\n...[TRUNCATED: "@ + dec(max_tokens as nat)
            + "/"@ + dec(total as nat)
            + " tokens. Call exec again with narrower argv or a filtering command.]"@
    } else {
        s.take(head) + "\n\n...[TRUNCATED: "@ + dec(max_tokens as nat) + "/"@ + dec(total as nat)
            + " tokens, "@ + dec(line_count(s.subrange(head, tail)))
            + " lines dropped. Call exec again with narrower argv or a filtering command.]\n\n"@
            + trim_start(s.skip(tail))
    }
}

/// Cuts a text that holds `total` tokens to about `max_tokens`: head and tail stay.
pub fn token_truncate(text: &str, max_tokens: u32, total: u32) -> (out: String)
    ensures
        out@ == truncated(text@, max_tokens, total),
{
    if total <= max_tokens {
        return text.to_owned();
    }
    let s: Vec<char> = chars_of(text);
    let head: usize = find_token_boundary(s.as_slice(), portion_of(max_tokens, 7));
    let tail: usize = find_token_boundary_reverse(s.as_slice(), portion_of(max_tokens, 3));
    if head >= tail {
        let end: usize = find_token_boundary(s.as_slice(), max_tokens);
        let mut out: String = string_of(slice_of(s.as_slice(), 0, end).as_slice());
        proof {
            assert(s@.subrange(0, end as int) =~= s@.take(end as int));
        }
        out.append("\n...[TRUNCATED: ");
        out.append(decimal(max_tokens as u64).as_str());
        out.append("/");
        out.append(decimal(total as u64).as_str());
        out.append(" tokens. Call exec again with narrower argv or a filtering command.]");
        out
    } else {
        let mut out: String = string_of(slice_of(s.as_slice(), 0, head).as_slice());
        proof {
            assert(s@.subrange(0, head as int) =~= s@.take(head as int));
        }
        out.append("\n\n...[TRUNCATED: ");
        out.append(decimal(max_tokens as u64).as_str());
        out.append("/");
        out.append(decimal(total as u64).as_str());
        out.append(" tokens, ");
        let middle: String = string_of(slice_of(s.as_slice(), head, tail).as_slice());
        out.append(decimal_size(count_lines(middle.as_str())).as_str());
        out.append(
            " lines dropped. Call exec again with narrower argv or a filtering command.]\n\n",
        );
        let end: Vec<char> = slice_of(s.as_slice(), tail, s.len());
        let k: usize = leading_whitespace(end.as_slice());
        proof {
            lemma_leading_ws_bounds(end@);
            assert(end@ =~= s@.skip(tail as int));
            assert(end@.subrange(k as int, end@.len() as int) =~= trim_start(end@));
        }
        out.append(string_of(slice_of(end.as_slice(), k, end.len()).as_slice()).as_str());
        out
    }
}

/// The character that opens a terminal escape.
pub const ESC: char = '\u{1b}';

/// What follows the rest of a control sequence: a character from `@` to `~` ends it.
pub open spec fn after_control(s: Seq<char>) -> Seq<char>
    decreases s.len(),
{
    if s.len() == 0 {
        s
    } else if '@' <= s[0] <= '~' {
        s.skip(1)
    } else {
        after_control(s.skip(1))
    }
}

/// What follows the rest of a control string: a bell or `ESC \` ends it.
pub open spec fn after_string(s: Seq<char>) -> Seq<char>
    decreases s.len(),
{
    if s.len() == 0 {
        s
    } else if s[0] == '\u{7}' {
        s.skip(1)
    } else if s[0] == ESC && s.len() > 1 && s[1] == '\\' {
        s.skip(2)
    } else {
        after_string(s.skip(1))
    }
}

/// What follows an escape.
pub open spec fn after_escape(s: Seq<char>) -> Seq<char> {
    if s.len() < 2 {
        Seq::empty()
    } else if s[1] == '[' {
        after_control(s.skip(2))
    } else if s[1] == ']' || s[1] == 'P' || s[1] == '_' || s[1] == '^' {
        after_string(s.skip(2))
    } else {
        s.skip(2)
    }
}

/// What follows a control sequence is an end of the text.
pub proof fn lemma_after_control(s: Seq<char>)
    ensures
        after_control(s).len() <= s.len(),
        after_control(s) == s.skip(s.len() - after_control(s).len()),
    decreases s.len(),
{
    if s.len() == 0 {
        assert(s.skip(0) =~= s);
    } else if !('@' <= s[0] <= '~') {
        let t = s.skip(1);
        lemma_after_control(t);
        assert(t.skip(t.len() - after_control(t).len()) =~= s.skip(s.len() - after_control(t).len()));
    }
}

/// What follows a control string is an end of the text.
pub proof fn lemma_after_string(s: Seq<char>)
    ensures
        after_string(s).len() <= s.len(),
        after_string(s) == s.skip(s.len() - after_string(s).len()),
    decreases s.len(),
{
    if s.len() == 0 {
        assert(s.skip(0) =~= s);
    } else if s[0] != '\u{7}' && !(s[0] == ESC && s.len() > 1 && s[1] == '\\') {
        let t = s.skip(1);
        lemma_after_string(t);
        assert(t.skip(t.len() - after_string(t).len()) =~= s.skip(s.len() - after_string(t).len()));
    }
}

/// What follows an escape is shorter than what it opens.
pub proof fn lemma_after_escape(s: Seq<char>)
    requires
        s.len() > 0,
    ensures
        after_escape(s).len() < s.len(),
        after_escape(s) == s.skip(s.len() - after_escape(s).len()),
{
    if s.len() < 2 {
        assert(s.skip(1) =~= after_escape(s));
    } else {
        let t = s.skip(2);
        lemma_after_control(t);
        lemma_after_string(t);
        let r = after_escape(s);
        assert(r == t.skip(t.len() - r.len())) by {
            assert(t.skip(0) =~= t);
        }
        assert(t.skip(t.len() - r.len()) =~= s.skip(s.len() - r.len()));
    }
}

/// A text without its terminal escapes.
pub open spec fn without_escapes(s: Seq<char>) -> Seq<char>
    decreases s.len(),
{
    if s.len() == 0 {
        s
    } else if s[0] == ESC {
        proof {
            lemma_after_escape(s);
        }
        without_escapes(after_escape(s))
    } else {
        seq![s[0]] + without_escapes(s.skip(1))
    }
}

fn skip_control(s: &[char], from: usize) -> (k: usize)
    requires
        from <= s@.len(),
    ensures
        from <= k <= s@.len(),
        s@.skip(k as int) == after_control(s@.skip(from as int)),
{
    let mut i: usize = from;
    while i < s.len()
        invariant
            from <= i <= s@.len(),
            after_control(s@.skip(from as int)) == after_control(s@.skip(i as int)),
        decreases s@.len() - i,
    {
        let c: char = s[i];
        proof {
            assert(s@.skip(i as int).skip(1) =~= s@.skip(i + 1));
        }
        i = i + 1;
        if '@' <= c && c <= '~' {
            return i;
        }
    }
    i
}

fn skip_string(s: &[char], from: usize) -> (k: usize)
    requires
        from <= s@.len(),
    ensures
        from <= k <= s@.len(),
        s@.skip(k as int) == after_string(s@.skip(from as int)),
{
    let mut i: usize = from;
    let n: usize = s.len();
    while i < n
        invariant
            from <= i <= n,
            n == s@.len(),
            after_string(s@.skip(from as int)) == after_string(s@.skip(i as int)),
        decreases n - i,
    {
        let c: char = s[i];
        proof {
            assert(s@.skip(i as int).skip(1) =~= s@.skip(i + 1));
        }
        if c == '\u{7}' {
            return i + 1;
        }
        if c == ESC && n - i > 1 && s[i + 1] == '\\' {
            proof {
                assert(s@.skip(i as int).skip(2) =~= s@.skip(i + 2));
            }
            return i + 2;
        }
        i = i + 1;
    }
    i
}

/// Takes the terminal escapes out of a text.
pub fn strip_ansi(text: &str) -> (out: String)
    ensures
        out@ == without_escapes(text@),
{
    let s: Vec<char> = chars_of(text);
    let n: usize = s.len();
    let mut out: Vec<char> = Vec::new();
    let mut i: usize = 0;
    proof {
        assert(s@.skip(0) =~= s@);
        assert(out@ + without_escapes(s@) =~= without_escapes(s@));
    }
    while i < n
        invariant
            i <= n,
            n == s@.len(),
            s@ == text@,
            out@ + without_escapes(s@.skip(i as int)) == without_escapes(s@),
        decreases n - i,
    {
        let c: char = s[i];
        let ghost rest = s@.skip(i as int);
        proof {
            assert(rest.skip(1) =~= s@.skip(i + 1));
        }
        if c != ESC {
            let ghost before = out@;
            out.push(c);
            proof {
                assert(out@ + without_escapes(rest.skip(1)) =~= before + without_escapes(rest));
            }
            i = i + 1;
        } else if n - i < 2 {
            proof {
                assert(s@.skip(n as int) =~= Seq::<char>::empty());
            }
            i = n;
        } else {
            proof {
                assert(rest.skip(2) =~= s@.skip(i + 2));
            }
            let d: char = s[i + 1];
            if d == '[' {
                i = skip_control(s.as_slice(), i + 2);
            } else if d == ']' || d == 'P' || d == '_' || d == '^' {
                i = skip_string(s.as_slice(), i + 2);
            } else {
                i = i + 2;
            }
        }
    }
    proof {
        assert(out@ + without_escapes(s@.skip(n as int)) =~= out@);
    }
    string_of(out.as_slice())
}

/// A text that holds no escape is left as it is.
pub proof fn plain_text_is_kept(s: Seq<char>)
    requires
        !s.contains(ESC),
    ensures
        without_escapes(s) == s,
    decreases s.len(),
{
    if s.len() > 0 {
        assert(s[0] != ESC);
        let t = s.skip(1);
        assert forall|i: int| 0 <= i < t.len() implies t[i] != ESC by {
            assert(t[i] == s[i + 1]);
        }
        plain_text_is_kept(t);
        assert(seq![s[0]] + t =~= s);
    }
}

/// No escape is left over.
pub proof fn no_escape_is_left(s: Seq<char>)
    ensures
        !without_escapes(s).contains(ESC),
    decreases s.len(),
{
    if s.len() > 0 {
        if s[0] == ESC {
            lemma_after_escape(s);
            no_escape_is_left(after_escape(s));
        } else {
            let r = without_escapes(s.skip(1));
            no_escape_is_left(s.skip(1));
            assert forall|i: int| 0 <= i < (seq![s[0]] + r).len() implies (seq![s[0]] + r)[i]
                != ESC by {
                if i > 0 {
                    assert((seq![s[0]] + r)[i] == r[i - 1]);
                }
            }
        }
    }
}

} // verus!
