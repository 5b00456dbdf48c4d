//! What holds of lines, white space, numerals and replacements in every text.

use vstd::prelude::*;

use crate::format::{byte_len, dec, fitting};
use crate::lines::{join, lemma_split_nonempty, nl, split_nl};
use crate::numbered::{line_count, listing, numbered_line};
use crate::search::{at, find_from, lemma_find_from, lemma_has_find, lemma_replaced_absent, replaced};
use crate::text::{
    is_blank, is_ws, leading_ws, lemma_leading_ws_bounds, trim, trim_end, trim_start,
};

verus! {

/// One part more stands behind a separator, and one part alone stands as it is.
pub proof fn joined_parts_stand_behind_separators(
    parts: Seq<Seq<char>>,
    sep: Seq<char>,
    x: Seq<char>,
)
    ensures
        join(seq![x], sep) == x,
        parts.len() > 0 ==> join(parts.push(x), sep) == join(parts, sep) + sep + x,
        join(Seq::<Seq<char>>::empty(), sep).len() == 0,
{
    assert(parts.push(x).drop_last() =~= parts);
}

/// Two lists of parts, joined: the parts of the one, a separator, the parts of the other.
pub proof fn joined_lists_stand_behind_each_other(
    a: Seq<Seq<char>>,
    b: Seq<Seq<char>>,
    sep: Seq<char>,
)
    requires
        a.len() > 0,
        b.len() > 0,
    ensures
        join(a + b, sep) == join(a, sep) + sep + join(b, sep),
    decreases b.len(),
{
    if b.len() == 1 {
        assert(a + b =~= a.push(b[0]));
        joined_parts_stand_behind_separators(a, sep, b[0]);
    } else {
        let c = b.drop_last();
        joined_lists_stand_behind_each_other(a, c, sep);
        assert(a + b =~= (a + c).push(b.last()));
        joined_parts_stand_behind_separators(a + c, sep, b.last());
        assert(join(a + b, sep) =~= join(a, sep) + sep + join(b, sep));
    }
}

/// Lines without a newline in them are what splitting their join gives back.
pub proof fn splitting_undoes_joining(lines: Seq<Seq<char>>)
    requires
        lines.len() > 0,
        forall|i: int| 0 <= i < lines.len() ==> !(#[trigger] lines[i]).contains('\n'),
    ensures
        split_nl(join(lines, nl())) == lines,
    decreases lines.len(),
{
    let last = lines.last();
    assert(!lines[lines.len() - 1].contains('\n'));
    if lines.len() == 1 {
        lemma_split_plain(Seq::<char>::empty(), last);
        assert(Seq::<char>::empty() + last =~= last);
        assert(split_nl(Seq::<char>::empty()) =~= seq![Seq::<char>::empty()]);
        assert(split_nl(last) =~= lines);
    } else {
        let front = lines.drop_last();
        assert forall|i: int| 0 <= i < front.len() implies !(#[trigger] front[i]).contains('\n') by {
            assert(front[i] == lines[i]);
        }
        splitting_undoes_joining(front);
        let t = join(front, nl()) + nl();
        assert(t.drop_last() =~= join(front, nl()));
        assert(t.last() == '\n');
        lemma_split_plain(t, last);
        assert(split_nl(t) =~= front.push(Seq::<char>::empty()));
        assert(split_nl(t + last) =~= lines);
        assert(join(lines, nl()) =~= t + last);
    }
}

proof fn lemma_split_plain(t: Seq<char>, more: Seq<char>)
    requires
        !more.contains('\n'),
    ensures
        split_nl(t + more) == split_nl(t).drop_last().push(split_nl(t).last() + more),
    decreases more.len(),
{
    lemma_split_nonempty(t);
    if more.len() == 0 {
        assert(t + more =~= t);
        assert(split_nl(t).last() + more =~= split_nl(t).last());
        assert(split_nl(t) =~= split_nl(t).drop_last().push(split_nl(t).last()));
    } else {
        let m = more.drop_last();
        assert(!m.contains('\n')) by {
            if m.contains('\n') {
                let i = choose|i: int| 0 <= i < m.len() && m[i] == '\n';
                assert(more[i] == '\n');
            }
        }
        lemma_split_plain(t, m);
        assert((t + more).drop_last() =~= t + m);
        assert((t + more).last() == more.last());
        assert(more[more.len() - 1] == more.last());
        assert(split_nl(t).last() + more =~= (split_nl(t).last() + m).push(more.last()));
        assert(split_nl(t + more) =~= split_nl(t).drop_last().push(split_nl(t).last() + more));
    }
}

/// A text has one line more than it has newlines.
pub proof fn newlines_separate_lines(s: Seq<char>)
    ensures
        split_nl(s).len() == 1 + s.filter(|c: char| c == '\n').len(),
    decreases s.len(),
{
    reveal(Seq::filter);
    if s.len() > 0 {
        newlines_separate_lines(s.drop_last());
        lemma_split_nonempty(s.drop_last());
    }
}

/// The lines that count: one for each newline, and one for what stands behind the last.
pub proof fn counted_lines_are_newlines_and_a_rest(s: Seq<char>)
    ensures
        line_count(s) == s.filter(|c: char| c == '\n').len() + (if s.len() > 0 && s.last() != '\n' {
            1int
        } else {
            0
        }),
{
    newlines_separate_lines(s);
    lemma_last_line(s);
}

proof fn lemma_last_line(s: Seq<char>)
    ensures
        split_nl(s).len() > 0,
        split_nl(s).last().len() == 0 <==> (s.len() == 0 || s.last() == '\n'),
{
    if s.len() > 0 {
        lemma_split_nonempty(s.drop_last());
    }
}

/// White space is what Unicode calls so: these 25 characters.
pub proof fn white_space_is_that_of_unicode(c: char)
    ensures
        is_ws(c) <==> {
            let n = c as u32;
            ||| n == 9 || n == 10 || n == 11 || n == 12 || n == 13 || n == 32
            ||| n == 0x85 || n == 0xa0 || n == 0x1680
            ||| n == 0x2000 || n == 0x2001 || n == 0x2002 || n == 0x2003 || n == 0x2004
            ||| n == 0x2005 || n == 0x2006 || n == 0x2007 || n == 0x2008 || n == 0x2009
            ||| n == 0x200a || n == 0x2028 || n == 0x2029 || n == 0x202f || n == 0x205f
            ||| n == 0x3000
        },
{
}

/// Trimming the end takes off white space, and all of it.
pub proof fn trimmed_end_is_all_white(s: Seq<char>)
    ensures
        trim_end(s).is_prefix_of(s),
        is_blank(s.skip(trim_end(s).len() as int)),
        trim_end(s).len() > 0 ==> !is_ws(trim_end(s).last()),
    decreases s.len(),
{
    if s.len() > 0 && is_ws(s.last()) {
        let t = s.drop_last();
        trimmed_end_is_all_white(t);
        let k = trim_end(t).len() as int;
        assert(s.take(k) =~= t.take(k));
        assert forall|i: int| 0 <= i < s.skip(k).len() implies is_ws(#[trigger] s.skip(k)[i]) by {
            if i < t.skip(k).len() {
                assert(s.skip(k)[i] == t.skip(k)[i]);
            }
        }
    } else {
        assert(s.take(s.len() as int) =~= s);
    }
}

/// Trimming takes white space off both ends, and all of it.
pub proof fn trimmed_text_has_solid_ends(s: Seq<char>) -> (k: int)
    ensures
        0 <= k <= s.len(),
        k + trim(s).len() <= s.len(),
        s.subrange(k, k + trim(s).len()) == trim(s),
        is_blank(s.take(k)),
        is_blank(s.skip(k + trim(s).len())),
        trim(s).len() > 0 ==> !is_ws(trim(s)[0]) && !is_ws(trim(s).last()),
{
    let k = leading_ws(s) as int;
    lemma_leading_ws_bounds(s);
    let t = trim_start(s);
    trimmed_end_is_all_white(t);
    let n = trim(s).len() as int;
    assert(trim(s) == t.take(n));
    assert(s.subrange(k, k + n) =~= t.take(n));
    assert(s.skip(k + n) =~= t.skip(n));
    if n > 0 {
        assert(trim(s)[0] == t[0]);
        assert(t[0] == s[k]);
    }
    k
}

/// The first occurrence is replaced, and the rest of the text behind it as well; nothing
/// else is touched.
pub proof fn every_occurrence_is_replaced(s: Seq<char>, from: Seq<char>, to: Seq<char>)
    requires
        from.len() > 0,
    ensures
        ({
            let p = find_from(s, from, 0);
            if p == -1 {
                replaced(s, from, to) == s
            } else {
                replaced(s, from, to) == s.take(p) + to + replaced(s.skip(p + from.len()), from, to)
            }
        }),
    decreases s.len(),
{
    lemma_has_find(s, from);
    lemma_find_from(s, from, 0);
    let p = find_from(s, from, 0);
    if p == -1 {
        lemma_replaced_absent(s, from, to);
    } else if p == 0 {
        assert(s.take(0) + to + replaced(s.skip(from.len() as int), from, to) =~= to + replaced(
            s.skip(from.len() as int),
            from,
            to,
        ));
    } else {
        let t = s.skip(1);
        every_occurrence_is_replaced(t, from, to);
        lemma_find_from(t, from, 0);
        assert(at(t, from, p - 1)) by {
            assert(t.subrange(p - 1, p - 1 + from.len()) =~= s.subrange(p, p + from.len()));
        }
        assert forall|k: int| 0 <= k < p - 1 implies !at(t, from, k) by {
            if at(t, from, k) {
                assert(t.subrange(k, k + from.len()) =~= s.subrange(k + 1, k + 1 + from.len()));
                assert(at(s, from, k + 1));
            }
        }
        let q = find_from(t, from, 0);
        assert(q == p - 1) by {
            if q == -1 {
                assert(!at(t, from, p - 1));
            } else if q < p - 1 {
                assert(!at(t, from, q));
            }
        }
        assert(!at(s, from, 0));
        assert(t.skip(q + from.len()) =~= s.skip(p + from.len()));
        assert(seq![s[0]] + (t.take(q) + to + replaced(t.skip(q + from.len()), from, to)) =~= s.take(
            p,
        ) + to + replaced(s.skip(p + from.len()), from, to));
    }
}

/// The number that a list of decimal digits stands for.
pub open spec fn numeral(s: Seq<char>) -> int
    decreases s.len(),
{
    if s.len() == 0 {
        0
    } else {
        10 * numeral(s.drop_last()) + (s.last() as u32 - 48)
    }
}

/// A number is written in decimal digits, without a zero in front, and reads back as
/// itself.
pub proof fn numbers_read_back(n: nat)
    ensures
        numeral(dec(n)) == n,
        dec(n).len() > 0,
        forall|i: int| 0 <= i < dec(n).len() ==> '0' <= #[trigger] dec(n)[i] <= '9',
        n > 0 ==> dec(n)[0] != '0',
    decreases n,
{
    if n < 10 {
        assert(dec(n).drop_last() =~= Seq::<char>::empty());
        assert(numeral(dec(n).drop_last()) == 0);
    } else {
        numbers_read_back(n / 10);
        assert(dec(n).drop_last() =~= dec(n / 10));
        assert(dec(n)[0] == dec(n / 10)[0]);
        assert forall|i: int| 0 <= i < dec(n).len() implies '0' <= #[trigger] dec(n)[i] <= '9' by {
            if i < dec(n / 10).len() {
                assert(dec(n)[i] == dec(n / 10)[i]);
            }
        }
    }
}

/// As many whole characters as fit in a number of bytes, and no fewer.
pub proof fn as_much_as_fits(s: Seq<char>, max: nat)
    ensures
        fitting(s, max) <= s.len(),
        byte_len(s.take(fitting(s, max) as int)) <= max,
        fitting(s, max) < s.len() ==> byte_len(s.take(fitting(s, max) as int + 1)) > max,
    decreases s.len(),
{
    assert(s.take(s.len() as int) =~= s);
    if byte_len(s) > max {
        let t = s.drop_last();
        as_much_as_fits(t, max);
        let k = fitting(t, max) as int;
        assert(s.take(k) =~= t.take(k));
        if k < t.len() {
            assert(s.take(k + 1) =~= t.take(k + 1));
        } else {
            assert(s.take(k + 1) =~= s);
        }
    }
}

/// A listing shows each line behind its own number, counted from 1, and a line more stands
/// on a line of its own.
pub proof fn listing_shows_every_line(lines: Seq<Seq<char>>, from: int, to: int)
    requires
        0 <= from < to <= lines.len(),
    ensures
        listing(lines, from, from + 1) == "L"@ + dec((from + 1) as nat) + ": "@ + lines[from],
        to < lines.len() ==> listing(lines, from, to + 1) == listing(lines, from, to) + nl() + "L"@
            + dec((to + 1) as nat) + ": "@ + lines[to],
{
    let all = |n: int| Seq::new((n - from) as nat, |k: int| numbered_line(lines, from + k));
    assert(all(from + 1) =~= seq![numbered_line(lines, from)]);
    assert(all(to + 1) =~= all(to).push(numbered_line(lines, to)));
    joined_parts_stand_behind_separators(all(to), nl(), numbered_line(lines, to));
    assert(listing(lines, from, to + 1) == join(all(to + 1), nl()));
    assert(listing(lines, from, from + 1) == join(all(from + 1), nl()));
    if to < lines.len() {
        assert(listing(lines, from, to) + nl() + numbered_line(lines, to) =~= listing(
            lines,
            from,
            to,
        ) + nl() + "L"@ + dec((to + 1) as nat) + ": "@ + lines[to]);
    }
}

} // verus!
