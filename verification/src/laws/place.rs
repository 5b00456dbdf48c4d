//! What holds of every hunk of an edit once its place is known: what it takes out and what
//! it puts in.

use vstd::prelude::*;

use crate::edit::hunk::Hunk;
use crate::edit::indent::{common_indent, cut, indent, min_indent, stripped};
use crate::edit::locate::{within, LocatedView};
use crate::edit::place::lines_of;
use crate::edit::resolve::{
    base_indent, counts, first_holding, first_solid, indented, inline_text, inlined, line_holds,
    reindented, resolved, taken, OpView,
};
use crate::edit::view::{lemma_start_order, start_of};
use crate::format::{byte_len, fitting, lemma_byte_len_prefix};
use crate::laws::text::{
    as_much_as_fits, joined_lists_stand_behind_each_other, joined_parts_stand_behind_separators,
    splitting_undoes_joining,
};
use crate::lines::{
    join, lemma_line_at_offset, lemma_offset_total, lemma_split_nonempty, line_offset,
    lines_hold_no_newline, nl, split_nl,
};
use crate::outside::{regex_every, regex_first, regex_found};
use crate::search::{at, ends, find_from, lemma_find_from, lemma_has_find, occurs, replaced};
use crate::text::{is_blank, is_ws, leading_ws, lemma_leading_ws_bounds};

verus! {

/// The first `k` characters of a line are its white space at the start, all of it.
pub open spec fn white_start(l: Seq<char>, k: int) -> bool {
    &&& 0 <= k <= l.len()
    &&& is_blank(l.take(k))
    &&& k < l.len() ==> !is_ws(l[k])
}

/// Line `r` is not blank, begins with `k` characters of white space, and no line that is not
/// blank begins with fewer bytes of it.
pub open spec fn least_indented(lines: Seq<Seq<char>>, r: int, k: int) -> bool {
    &&& 0 <= r < lines.len()
    &&& !is_blank(lines[r])
    &&& white_start(lines[r], k)
    &&& forall|i: int, n: int|
        0 <= i < lines.len() && !is_blank(lines[i]) && #[trigger] white_start(lines[i], n)
            ==> byte_len(lines[r].take(k)) <= byte_len(lines[i].take(n))
}

proof fn lemma_white(l: Seq<char>, k: int)
    ensures
        white_start(l, leading_ws(l) as int),
        white_start(l, k) ==> k == leading_ws(l),
        is_blank(l) <==> leading_ws(l) == l.len(),
{
    lemma_leading_ws_bounds(l);
    let n = leading_ws(l) as int;
    assert forall|i: int| 0 <= i < n implies is_ws(#[trigger] l.take(n)[i]) by {
        assert(l.take(n)[i] == l[i]);
    }
    if white_start(l, k) {
        if k < n {
            assert(is_ws(l[k]));
        } else if n < k {
            assert(is_ws(l.take(k)[n]));
        }
    }
    if leading_ws(l) == l.len() {
        assert(is_blank(l));
    }
}

proof fn lemma_least(lines: Seq<Seq<char>>)
    ensures
        min_indent(lines) is None <==> forall|i: int|
            0 <= i < lines.len() ==> is_blank(#[trigger] lines[i]),
        min_indent(lines) matches Some(m) ==> {
            &&& forall|i: int|
                0 <= i < lines.len() && !is_blank(#[trigger] lines[i]) ==> m <= indent(lines[i])
            &&& exists|i: int|
                0 <= i < lines.len() && !is_blank(#[trigger] lines[i]) && m == indent(lines[i])
        },
    decreases lines.len(),
{
    if lines.len() > 0 {
        let front = lines.drop_last();
        lemma_least(front);
        assert forall|i: int| 0 <= i < front.len() implies front[i] == #[trigger] lines[i] by {}
        let last = lines.len() - 1;
        assert(lines[last] == lines.last());
        if let Some(m) = min_indent(front) {
            let i = choose|i: int|
                0 <= i < front.len() && !is_blank(#[trigger] front[i]) && m == indent(front[i]);
            assert(lines[i] == front[i]);
            if !is_blank(lines.last()) && indent(lines.last()) < m {
                assert(!is_blank(lines[last]) && min_indent(lines) == Some(indent(lines[last])));
            }
            assert forall|k: int| 0 <= k < lines.len() && !is_blank(#[trigger] lines[k]) implies
                min_indent(lines)->0 <= indent(lines[k]) by {
                if k < front.len() {
                    assert(front[k] == lines[k]);
                }
            }
        } else {
            assert forall|k: int| 0 <= k < front.len() implies is_blank(#[trigger] lines[k]) by {
                assert(front[k] == lines[k]);
            }
        }
    }
}

/// The common indent of some lines is the white space of the line that has the least, in
/// bytes; blank lines do not count.
pub proof fn common_indent_is_the_least(lines: Seq<Seq<char>>, r: int, k: int)
    ensures
        least_indented(lines, r, k) ==> common_indent(lines) == byte_len(lines[r].take(k)),
        (forall|i: int| 0 <= i < lines.len() ==> is_blank(#[trigger] lines[i])) ==> common_indent(
            lines,
        ) == 0,
{
    lemma_least(lines);
    if least_indented(lines, r, k) {
        lemma_white(lines[r], k);
        assert(!is_blank(lines[r]));
        let m = min_indent(lines)->0;
        let i = choose|i: int|
            0 <= i < lines.len() && !is_blank(#[trigger] lines[i]) && m == indent(lines[i]);
        lemma_white(lines[i], 0);
        assert(white_start(lines[i], leading_ws(lines[i]) as int));
    }
}

/// As many bytes as the first `k` characters have are the first `k` characters.
proof fn lemma_fits_exactly(l: Seq<char>, k: int)
    requires
        0 <= k <= l.len(),
    ensures
        fitting(l, byte_len(l.take(k))) == k,
        cut(l, byte_len(l.take(k))) == l.skip(k),
{
    let m = byte_len(l.take(k));
    as_much_as_fits(l, m);
    let f = fitting(l, m) as int;
    if f < k {
        lemma_byte_len_prefix(l, f + 1, k);
    } else if k < f {
        lemma_byte_len_prefix(l, k, f);
    }
}

/// A text is moved to another indent line by line: a blank line becomes empty, and any other
/// gets the new indent in the place of the text's own common indent. There are as many lines
/// as before.
pub proof fn every_line_gets_the_indent(new: Seq<char>, base: Seq<char>, r: int, k: int)
    requires
        new.len() > 0,
        base.len() > 0,
        !base.contains('\n'),
        least_indented(split_nl(new), r, k),
    ensures
        ({
            let lines = split_nl(new);
            let out = split_nl(reindented(new, base));
            &&& out.len() == lines.len()
            &&& forall|i: int|
                0 <= i < lines.len() && is_blank(#[trigger] lines[i]) ==> out[i].len() == 0
            &&& forall|i: int, n: int|
                0 <= i < lines.len() && !is_blank(#[trigger] lines[i]) && 0 <= n <= lines[i].len()
                    && #[trigger] byte_len(lines[i].take(n)) == byte_len(lines[r].take(k))
                    ==> out[i] == base + lines[i].skip(n)
        }),
{
    let lines = split_nl(new);
    let m = byte_len(lines[r].take(k));
    common_indent_is_the_least(lines, r, k);
    let parts = indented(stripped(lines), base);
    assert forall|i: int| 0 <= i < parts.len() implies !(#[trigger] parts[i]).contains('\n') by {
        lines_hold_no_newline(new, i);
        let c = stripped(lines)[i];
        assert(!c.contains('\n')) by {
            if c.contains('\n') {
                let p = choose|p: int| 0 <= p < c.len() && c[p] == '\n';
                let f = fitting(lines[i], m) as int;
                as_much_as_fits(lines[i], m);
                assert(lines[i][f + p] == '\n');
            }
        }
        if parts[i].contains('\n') {
            let p = choose|p: int| 0 <= p < parts[i].len() && parts[i][p] == '\n';
            if p < base.len() {
                assert(base[p] == '\n');
            } else {
                assert(c[p - base.len()] == '\n');
            }
        }
    }
    lemma_split_nonempty(new);
    splitting_undoes_joining(parts);
    assert forall|i: int, n: int|
        0 <= i < lines.len() && !is_blank(#[trigger] lines[i]) && 0 <= n <= lines[i].len()
            && #[trigger] byte_len(lines[i].take(n)) == m implies parts[i] == base
        + lines[i].skip(n) by {
        lemma_fits_exactly(lines[i], n);
        lemma_white(lines[i], 0);
        let w = leading_ws(lines[i]) as int;
        assert(white_start(lines[i], w));
        if n == lines[i].len() {
            lemma_byte_len_prefix(lines[i], w, n);
            assert(w == n) by {
                if w < n {
                    assert(byte_len(lines[i].take(w)) < m);
                }
            }
        }
        assert(stripped(lines)[i] == lines[i].skip(n));
    }
}

/// A text that is empty, or goes to no indent, is put in as it is.
pub proof fn nothing_to_indent(new: Seq<char>, base: Seq<char>)
    ensures
        new.len() == 0 || base.len() == 0 ==> reindented(new, base) == new,
{
}

/// `b` is the common indent of some lines: white space with which every line begins that is
/// not blank, and behind which one of them goes on with something else.
pub open spec fn indent_is(lines: Seq<Seq<char>>, b: Seq<char>) -> bool {
    &&& is_blank(b)
    &&& forall|i: int|
        0 <= i < lines.len() && !is_blank(#[trigger] lines[i]) ==> b.is_prefix_of(lines[i])
    &&& exists|r: int|
        0 <= r < lines.len() && !is_blank(#[trigger] lines[r]) && white_start(
            lines[r],
            b.len() as int,
        )
}

proof fn lemma_indent_is(lines: Seq<Seq<char>>, b: Seq<char>) -> (r: int)
    requires
        indent_is(lines, b),
    ensures
        least_indented(lines, r, b.len() as int),
        lines[r].take(b.len() as int) == b,
{
    let r = choose|r: int|
        0 <= r < lines.len() && !is_blank(#[trigger] lines[r]) && white_start(
            lines[r],
            b.len() as int,
        );
    let k = b.len() as int;
    assert(lines[r].take(k) =~= b);
    assert forall|i: int, n: int|
        0 <= i < lines.len() && !is_blank(lines[i]) && #[trigger] white_start(
            lines[i],
            n,
        ) implies byte_len(lines[r].take(k)) <= byte_len(lines[i].take(n)) by {
        assert(b.is_prefix_of(lines[i]));
        assert(lines[i].take(k) =~= b);
        if n < k {
            assert(lines[i][n] == b[n]);
            assert(is_ws(b[n]));
        }
        lemma_byte_len_prefix(lines[i], k, n);
    }
    r
}

/// The indent of a place is the white space that its lines have in common.
pub proof fn place_has_the_indent_of_its_lines(lines: Seq<Seq<char>>, b: Seq<char>)
    requires
        indent_is(lines, b),
    ensures
        base_indent(lines) == b,
{
    let r = lemma_indent_is(lines, b);
    common_indent_is_the_least(lines, r, b.len() as int);
    lemma_first_solid(lines, r);
    let l = first_solid(lines)->0;
    assert(b.is_prefix_of(l));
    assert(l.take(b.len() as int) =~= b);
    lemma_fits_exactly(l, b.len() as int);
}

proof fn lemma_first_solid(lines: Seq<Seq<char>>, r: int)
    requires
        0 <= r < lines.len(),
        !is_blank(lines[r]),
    ensures
        first_solid(lines) is Some,
        exists|i: int|
            0 <= i < lines.len() && first_solid(lines)->0 == #[trigger] lines[i] && !is_blank(lines[i]),
    decreases lines.len(),
{
    if is_blank(lines[0]) {
        let rest = lines.skip(1);
        assert(rest[r - 1] == lines[r]);
        lemma_first_solid(rest, r - 1);
        let i = choose|i: int|
            0 <= i < rest.len() && first_solid(rest)->0 == #[trigger] rest[i] && !is_blank(rest[i]);
        assert(lines[i + 1] == rest[i]);
    }
}

/// What a replacement puts in. Placed exactly, it puts in its new text as it is. Placed by
/// the shape of its indent or more loosely, at lines whose common indent is `b`, it puts in
/// as many lines as its new text has: an empty one for each blank one, and for any other `b`
/// and what the line holds behind the common indent of the new text.
pub proof fn replacement_is_indented_like_its_place(
    text: Seq<char>,
    h: Hunk,
    l: LocatedView,
    new: String,
    b: Seq<char>,
    own: Seq<char>,
)
    requires
        h matches Hunk::Replace { new: n, .. } && n == new,
        within(text, l),
        indent_is(lines_of(text, l), b),
        b.len() > 0,
        new@.len() > 0,
        indent_is(split_nl(new@), own),
    ensures
        l.tier < 2 ==> resolved(text, h, l).text() == new@,
        l.tier >= 2 ==> ({
            let lines = split_nl(new@);
            let out = split_nl(resolved(text, h, l).text());
            &&& out.len() == lines.len()
            &&& forall|i: int|
                0 <= i < lines.len() ==> #[trigger] out[i] == (if is_blank(lines[i]) {
                    Seq::empty()
                } else {
                    b + lines[i].skip(own.len() as int)
                })
        }),
{
    place_has_the_indent_of_its_lines(lines_of(text, l), b);
    let lines = split_nl(new@);
    let r = lemma_indent_is(lines, own);
    let k = own.len() as int;
    assert(!b.contains('\n')) by {
        let w = lines_of(text, l);
        let q = lemma_indent_is(w, b);
        lines_hold_no_newline(text, l.start_line + q);
        if b.contains('\n') {
            let p = choose|p: int| 0 <= p < b.len() && b[p] == '\n';
            assert(w[q].take(b.len() as int)[p] == w[q][p]);
            assert(split_nl(text)[l.start_line + q] == w[q]);
        }
    }
    every_line_gets_the_indent(new@, b, r, k);
    if l.tier >= 2 {
        let out = split_nl(resolved(text, h, l).text());
        assert forall|i: int| 0 <= i < lines.len() implies #[trigger] out[i] == (if is_blank(
            lines[i],
        ) {
            Seq::empty()
        } else {
            b + lines[i].skip(own.len() as int)
        }) by {
            if is_blank(lines[i]) {
                assert(out[i] =~= Seq::<char>::empty());
            } else {
                assert(own.is_prefix_of(lines[i]));
                assert(lines[i].take(k) =~= own);
                assert(byte_len(lines[i].take(k)) == byte_len(lines[r].take(k)));
            }
        }
    }
}

/// The lines `s` to `e` of a text, with their newlines, are what stands from the start of the
/// one to the start of the other.
proof fn lemma_lines_between(text: Seq<char>, s: int, e: int)
    requires
        0 <= s < e <= split_nl(text).len(),
    ensures
        ({
            let lines = split_nl(text);
            let from = start_of(text, s);
            let to = start_of(text, e);
            &&& 0 <= from <= to <= text.len()
            &&& e < lines.len() ==> text.subrange(from, to) == join(lines.subrange(s, e), nl())
                + nl()
            &&& e == lines.len() ==> text.subrange(from, to) == join(lines.subrange(s, e), nl())
        }),
    decreases e - s,
{
    let lines = split_nl(text);
    let from = start_of(text, s);
    let to = start_of(text, e);
    lemma_start_order(text, s, e);
    lemma_line_at_offset(text, e - 1);
    lemma_offset_total(text);
    let last = lines[e - 1];
    let mid = start_of(text, e - 1);
    assert(line_offset(lines, e) == line_offset(lines, e - 1) + last.len() + 1);
    if e < lines.len() {
        assert(text.subrange(mid, to) =~= last + nl());
    } else {
        assert(text.subrange(mid, to) =~= last);
    }
    if e - 1 == s {
        assert(lines.subrange(s, e) =~= seq![last]);
        joined_parts_stand_behind_separators(seq![], nl(), last);
    } else {
        lemma_lines_between(text, s, e - 1);
        assert(lines.subrange(s, e) =~= lines.subrange(s, e - 1).push(last));
        joined_parts_stand_behind_separators(lines.subrange(s, e - 1), nl(), last);
        lemma_start_order(text, s, e - 1);
        lemma_start_order(text, e - 1, e);
        assert(text.subrange(from, to) =~= text.subrange(from, mid) + text.subrange(mid, to));
        if e < lines.len() {
            assert(join(lines.subrange(s, e - 1), nl()) + nl() + (last + nl()) =~= join(
                lines.subrange(s, e),
                nl(),
            ) + nl());
        }
    }
}

/// What a replacement takes out: the lines of its place, and the newline behind the last
/// only where the text to replace ends in one.
pub proof fn replacement_takes_its_lines_out(text: Seq<char>, l: LocatedView, with_newline: bool)
    requires
        within(text, l),
        l.win_lines > 0,
        lines_of(text, l).last().len() > 0,
    ensures
        ({
            let (start, end) = taken(text, l, with_newline);
            let window = join(lines_of(text, l), nl());
            let more = l.start_line + l.win_lines < split_nl(text).len();
            &&& start == start_of(text, l.start_line)
            &&& 0 <= start <= end <= text.len()
            &&& with_newline && more ==> text.subrange(start, end) == window + nl()
            &&& !with_newline || !more ==> text.subrange(start, end) == window
        }),
{
    let s = l.start_line;
    let e = l.start_line + l.win_lines;
    lemma_lines_between(text, s, e);
    let start = start_of(text, s);
    let end = start_of(text, e);
    let part = text.subrange(start, end);
    let w = lines_of(text, l);
    let window = join(w, nl());
    let last = w.last();
    assert(window.len() > 0 && window.last() != '\n') by {
        lines_hold_no_newline(text, e - 1);
        assert(last == split_nl(text)[e - 1]);
        assert(w =~= w.drop_last().push(last));
        joined_parts_stand_behind_separators(w.drop_last(), nl(), last);
        assert(window.last() == last.last());
        assert(last[last.len() - 1] != '\n');
    }
    assert(part.last() == text[end - 1]);
    if !with_newline && e < split_nl(text).len() {
        assert(text.subrange(start, end - 1) =~= part.drop_last());
        assert(part.drop_last() =~= window);
    }
}

/// Replacing a block of lines by itself without its indent leaves the file as it was,
/// wherever the place was found by its indent's shape or more loosely.
pub proof fn unindented_block_comes_back(
    text: Seq<char>,
    h: Hunk,
    l: LocatedView,
    old: String,
    new: String,
    b: Seq<char>,
)
    requires
        h matches Hunk::Replace { old: o, new: n, .. } && o == old && n == new,
        !(old@.len() > 0 && old@.last() == '\n'),
        within(text, l),
        l.tier >= 2,
        l.win_lines > 0,
        lines_of(text, l).last().len() > 0,
        b.len() > 0,
        indent_is(lines_of(text, l), b),
        forall|i: int|
            0 <= i < l.win_lines && is_blank(#[trigger] lines_of(text, l)[i]) ==> lines_of(
                text,
                l,
            )[i].len() == 0,
        new@ == join(
            Seq::new(
                l.win_lines as nat,
                |i: int|
                    if lines_of(text, l)[i].len() == 0 {
                        Seq::empty()
                    } else {
                        lines_of(text, l)[i].skip(b.len() as int)
                    },
            ),
            nl(),
        ),
    ensures
        resolved(text, h, l) matches OpView::Replace { start, end, new: put } && text.take(start)
            + put + text.skip(end) == text,
{
    let w = lines_of(text, l);
    let bare = Seq::new(
        l.win_lines as nat,
        |i: int|
            if w[i].len() == 0 {
                Seq::empty()
            } else {
                w[i].skip(b.len() as int)
            },
    );
    assert(bare =~= Seq::new(
        l.win_lines as nat,
        |i: int|
            if lines_of(text, l)[i].len() == 0 {
                Seq::empty()
            } else {
                lines_of(text, l)[i].skip(b.len() as int)
            },
    ));
    assert forall|i: int| 0 <= i < bare.len() implies !(#[trigger] bare[i]).contains('\n') by {
        lines_hold_no_newline(text, l.start_line + i);
        assert(w[i] == split_nl(text)[l.start_line + i]);
        if bare[i].contains('\n') {
            let p = choose|p: int| 0 <= p < bare[i].len() && bare[i][p] == '\n';
            assert(w[i][p + b.len()] == '\n');
        }
    }
    splitting_undoes_joining(bare);
    let none = Seq::<char>::empty();
    assert(indent_is(bare, none)) by {
        let r = lemma_indent_is(w, b);
        assert(w[r].len() > 0);
        lemma_white(w[r], b.len() as int);
        let solid = bare[r];
        assert(solid == w[r].skip(b.len() as int));
        assert(b.len() < w[r].len());
        assert(solid[0] == w[r][b.len() as int]);
        assert(!is_blank(bare[r]));
        assert(white_start(bare[r], 0));
        assert forall|i: int| 0 <= i < bare.len() && !is_blank(#[trigger] bare[i]) implies
            none.is_prefix_of(bare[i]) by {
            assert(bare[i].take(0) =~= none);
        }
    }
    assert(new@.len() > 0) by {
        let last = bare.last();
        assert(w.last().len() > 0);
        assert(!is_blank(w[w.len() - 1]));
        assert(b.is_prefix_of(w[w.len() - 1]));
        lemma_white(w[w.len() - 1], 0);
        assert(last.len() > 0) by {
            if last.len() == 0 {
                assert(w[w.len() - 1] =~= b);
            }
        }
        assert(bare =~= bare.drop_last().push(last));
        joined_parts_stand_behind_separators(bare.drop_last(), nl(), last);
    }
    replacement_is_indented_like_its_place(text, h, l, new, b, none);
    let put = resolved(text, h, l).text();
    let out = split_nl(put);
    assert(out =~= w) by {
        assert forall|i: int| 0 <= i < w.len() implies #[trigger] out[i] == w[i] by {
            if w[i].len() == 0 {
                assert(bare[i] =~= Seq::<char>::empty());
                assert(is_blank(bare[i]));
                assert(out[i] =~= w[i]);
            } else {
                assert(!is_blank(w[i]));
                assert(b.is_prefix_of(w[i]));
                assert(w[i].take(b.len() as int) =~= b);
                lemma_white(bare[i], 0);
                assert(!is_blank(bare[i])) by {
                    if is_blank(bare[i]) {
                        assert forall|p: int| 0 <= p < w[i].len() implies is_ws(
                            #[trigger] w[i][p],
                        ) by {
                            if p < b.len() {
                                assert(w[i][p] == b[p]);
                            } else {
                                assert(w[i][p] == bare[i][p - b.len()]);
                            }
                        }
                    }
                }
                assert(bare[i].skip(0) =~= bare[i]);
                assert(b + w[i].skip(b.len() as int) =~= w[i]);
            }
        }
    }
    crate::lines::join_undoes_split(put);
    replacement_takes_its_lines_out(text, l, false);
    let (start, end) = taken(text, l, false);
    assert(put == text.subrange(start, end));
    assert(text.take(start) + text.subrange(start, end) + text.skip(end) =~= text);
}

/// An in-line replacement of every occurrence replaces each one in each line, and nothing
/// else; lines stay where they are.
pub proof fn inline_replacement_reaches_every_line(
    window: Seq<char>,
    old: Seq<char>,
    new: Seq<char>,
)
    requires
        !new.contains('\n'),
        old.len() > 0,
    ensures
        ({
            let lines = split_nl(window);
            let out = split_nl(inline_text(window, old, new, true, false));
            &&& out.len() == lines.len()
            &&& forall|i: int|
                0 <= i < lines.len() ==> #[trigger] out[i] == replaced(lines[i], old, new)
        }),
{
    let lines = split_nl(window);
    let parts = inlined(lines, old, new, true, false);
    lemma_split_nonempty(window);
    assert forall|i: int| 0 <= i < parts.len() implies #[trigger] parts[i] == replaced(
        lines[i],
        old,
        new,
    ) by {
        if !counts(lines, i) {
            assert(lines[i] =~= Seq::<char>::empty());
            assert(replaced(lines[i], old, new) =~= lines[i]);
        }
    }
    assert forall|i: int| 0 <= i < parts.len() implies !(#[trigger] parts[i]).contains('\n') by {
        lines_hold_no_newline(window, i);
        lemma_replaced_holds(lines[i], old, new, '\n');
    }
    splitting_undoes_joining(parts);
}

proof fn lemma_replaced_holds(s: Seq<char>, old: Seq<char>, new: Seq<char>, c: char)
    requires
        old.len() > 0,
        !s.contains(c),
        !new.contains(c),
    ensures
        !replaced(s, old, new).contains(c),
    decreases s.len(),
{
    if s.len() > 0 {
        let n = if at(s, old, 0) {
            old.len() as int
        } else {
            1
        };
        let t = s.skip(n);
        assert(!t.contains(c)) by {
            if t.contains(c) {
                let i = choose|i: int| 0 <= i < t.len() && t[i] == c;
                assert(s[i + n] == c);
            }
        }
        lemma_replaced_holds(t, old, new, c);
        let r = replaced(s, old, new);
        if r.contains(c) {
            let i = choose|i: int| 0 <= i < r.len() && r[i] == c;
            if at(s, old, 0) {
                if i < new.len() {
                    assert(new[i] == c);
                } else {
                    assert(replaced(t, old, new)[i - new.len()] == c);
                }
            } else if i == 0 {
                assert(s[0] == c);
            } else {
                assert(replaced(t, old, new)[i - 1] == c);
            }
        }
    }
}

proof fn lemma_first_line(lines: Seq<Seq<char>>, old: Seq<char>, i: int, k: int)
    requires
        0 <= i <= k < lines.len(),
        old.len() > 0,
        occurs(lines[k], old),
        forall|j: int| i <= j < k ==> !occurs(#[trigger] lines[j], old),
    ensures
        first_holding(lines, old, false, i) == k,
    decreases k - i,
{
    if i < k {
        lemma_first_line(lines, old, i + 1, k);
    } else {
        let p = choose|p: int| #[trigger] at(lines[k], old, p);
        assert(lines[k].len() > 0);
    }
}

/// An in-line replacement of one occurrence replaces the first one in the first line that
/// has any, and nothing else.
pub proof fn inline_replacement_takes_the_first(
    window: Seq<char>,
    old: Seq<char>,
    new: Seq<char>,
    k: int,
    p: int,
)
    requires
        !new.contains('\n'),
        old.len() > 0,
        0 <= k < split_nl(window).len(),
        forall|j: int| 0 <= j < k ==> !occurs(#[trigger] split_nl(window)[j], old),
        at(split_nl(window)[k], old, p),
        forall|q: int| 0 <= q < p ==> !#[trigger] at(split_nl(window)[k], old, q),
    ensures
        ({
            let lines = split_nl(window);
            let out = split_nl(inline_text(window, old, new, false, false));
            &&& out.len() == lines.len()
            &&& out[k] == lines[k].take(p) + new + lines[k].skip(p + old.len())
            &&& forall|i: int| 0 <= i < lines.len() && i != k ==> #[trigger] out[i] == lines[i]
        }),
{
    let lines = split_nl(window);
    let parts = inlined(lines, old, new, false, false);
    assert(occurs(lines[k], old));
    lemma_first_line(lines, old, 0, k);
    lemma_find_from(lines[k], old, 0);
    lemma_has_find(lines[k], old);
    let f = find_from(lines[k], old, 0);
    assert(f == p) by {
        if f == -1 {
            assert(!at(lines[k], old, p));
        } else if f < p {
            assert(!at(lines[k], old, f));
        }
    }
    let a = lines[k].take(p);
    let b = lines[k].skip(p + old.len());
    assert(counts(lines, k)) by {
        assert(lines[k].len() > 0);
    }
    assert(parts[k] == a + new + b);
    assert forall|i: int| 0 <= i < parts.len() implies !(#[trigger] parts[i]).contains('\n') by {
        lines_hold_no_newline(window, i);
        if i == k && parts[k].contains('\n') {
            let x = choose|x: int| 0 <= x < parts[k].len() && parts[k][x] == '\n';
            if x < a.len() {
                assert(lines[k][x] == '\n');
            } else if x < a.len() + new.len() {
                assert(new[x - a.len()] == '\n');
            } else {
                assert(lines[k][x - new.len() + old.len()] == '\n');
            }
        }
    }
    splitting_undoes_joining(parts);
}

/// What an insertion does to the lines of a file: whole lines that are put in before line
/// `e` stand between the lines before it and the rest.
pub proof fn inserted_lines_stand_between(text: Seq<char>, more: Seq<Seq<char>>, e: int)
    requires
        0 <= e < split_nl(text).len(),
        more.len() > 0,
        forall|i: int| 0 <= i < more.len() ==> !(#[trigger] more[i]).contains('\n'),
    ensures
        ({
            let lines = split_nl(text);
            let pos = start_of(text, e);
            &&& 0 <= pos <= text.len()
            &&& split_nl(text.take(pos) + (join(more, nl()) + nl()) + text.skip(pos)) == lines.take(e)
                + more + lines.skip(e)
        }),
{
    let lines = split_nl(text);
    let n = lines.len() as int;
    let pos = start_of(text, e);
    lemma_start_order(text, e, e);
    let all = lines.take(e) + more + lines.skip(e);
    let put = join(more, nl()) + nl();
    crate::lines::join_undoes_split(text);
    lemma_lines_between(text, e, n);
    assert(lines.subrange(e, n) =~= lines.skip(e));
    assert(text.subrange(pos, text.len() as int) =~= text.skip(pos));
    joined_lists_stand_behind_each_other(more, lines.skip(e), nl());
    if e == 0 {
        assert(pos == 0);
        assert(all =~= more + lines.skip(e));
        assert(text.take(pos) + put + text.skip(pos) =~= join(all, nl()));
    } else {
        lemma_lines_between(text, 0, e);
        assert(start_of(text, 0) == 0);
        assert(lines.subrange(0, e) =~= lines.take(e));
        assert(text.subrange(0, pos) =~= text.take(pos));
        assert(all =~= lines.take(e) + (more + lines.skip(e)));
        joined_lists_stand_behind_each_other(lines.take(e), more + lines.skip(e), nl());
        assert(text.take(pos) + put + text.skip(pos) =~= join(all, nl()));
    }
    assert forall|i: int| 0 <= i < all.len() implies !(#[trigger] all[i]).contains('\n') by {
        if i < e {
            lines_hold_no_newline(text, i);
        } else if i >= e + more.len() {
            lines_hold_no_newline(text, i - more.len());
        } else {
            assert(all[i] == more[i - e]);
        }
    }
    splitting_undoes_joining(all);
}

/// Where a hunk with an anchor puts its text: behind the last line of the anchor, or before
/// its first, and as it is given. At the end of a file without a newline it starts a line.
pub proof fn anchored_text_goes_beside_its_anchor(text: Seq<char>, h: Hunk, l: LocatedView)
    requires
        within(text, l),
        l.win_lines > 0,
    ensures
        h matches Hunk::InsertBefore { new, .. } ==> resolved(text, h, l) == (OpView::Insert {
            pos: l.start_char,
            text: new@,
        }),
        h matches Hunk::InsertAfter { new, .. } ==> {
            &&& l.end_char < text.len() ==> resolved(text, h, l) == (OpView::Insert {
                pos: l.end_char,
                text: new@,
            })
            &&& l.end_char == text.len() && text.len() > 0 && text.last() == '\n' ==> resolved(
                text,
                h,
                l,
            ) == (OpView::Insert { pos: l.end_char, text: new@ })
            &&& l.end_char == text.len() && text.len() > 0 && text.last() != '\n' ==> resolved(
                text,
                h,
                l,
            ) == (OpView::Insert { pos: l.end_char, text: seq!['\n'] + new@ })
        },
{
    lemma_ends(text);
}

proof fn lemma_ends(text: Seq<char>)
    ensures
        ends(text, nl()) <==> text.len() > 0 && text.last() == '\n',
{
    if text.len() > 0 {
        let n = text.len() as int;
        assert(text.subrange(n - 1, n) =~= seq![text.last()]);
        assert(text.skip(n - 1) =~= seq![text.last()]);
        assert(seq![text.last()][0] == text.last());
        assert(nl()[0] == '\n');
    }
}

/// Appended text begins a line of its own: it stands behind the file, with a newline between
/// where a file that is not empty has none at its end.
pub proof fn appended_text_begins_a_line(text: Seq<char>, h: Hunk, l: LocatedView, new: String)
    requires
        h == (Hunk::AppendFile { new }),
    ensures
        resolved(text, h, l).start() == text.len(),
        resolved(text, h, l).end() == text.len(),
        text.len() == 0 || text.last() == '\n' ==> resolved(text, h, l).text() == new@,
        text.len() > 0 && text.last() != '\n' ==> resolved(text, h, l).text() == seq!['\n'] + new@,
{
    lemma_ends(text);
}

/// A replacement at an insertion point takes nothing out; one at some lines takes those out.
pub proof fn replacement_takes_out_its_place(text: Seq<char>, h: Hunk, l: LocatedView)
    requires
        h is Replace,
        within(text, l),
    ensures
        resolved(text, h, l) is Replace,
        l.win_lines == 0 ==> resolved(text, h, l).start() == l.start_char && resolved(
            text,
            h,
            l,
        ).end() == l.end_char,
        l.win_lines > 0 ==> resolved(text, h, l).start() == l.start_char && (resolved(
            text,
            h,
            l,
        ).end() == l.end_char || resolved(text, h, l).end() == l.end_char - 1),
        h matches Hunk::Replace { old, .. } ==> (old@.len() > 0 && old@.last() == '\n' ==> resolved(
            text,
            h,
            l,
        ).end() == l.end_char),
        l.tier < 2 ==> (h matches Hunk::Replace { new, .. } ==> resolved(text, h, l).text() == new@),
{
}

/// An in-line replacement rewrites the lines of its anchor, from the start of the first to
/// the start of what follows.
pub proof fn inline_replacement_rewrites_its_lines(text: Seq<char>, h: Hunk, l: LocatedView)
    requires
        within(text, l),
        l.win_lines > 0,
    ensures
        h matches Hunk::ReplaceInline { old, new, replace_all, regex, .. } ==> resolved(text, h, l)
            == (OpView::Replace {
            start: l.start_char,
            end: l.end_char,
            new: inline_text(
                text.subrange(l.start_char, l.end_char),
                old@,
                new@,
                replace_all,
                regex,
            ),
        }),
{
}

/// An in-line replacement by an expression goes line by line as well: every match of each line,
/// or the first match of the first line that has one.
pub proof fn inline_expressions_go_line_by_line(
    lines: Seq<Seq<char>>,
    old: Seq<char>,
    new: Seq<char>,
    i: int,
)
    requires
        0 <= i < lines.len(),
        i < lines.len() - 1 || lines[i].len() > 0,
    ensures
        inlined(lines, old, new, true, true).len() == lines.len(),
        inlined(lines, old, new, true, true)[i] == regex_every(old, lines[i], new),
        regex_found(old, lines[i]) && (forall|k: int|
            0 <= k < i ==> !regex_found(old, #[trigger] lines[k])) ==> inlined(
            lines,
            old,
            new,
            false,
            true,
        )[i] == regex_first(old, lines[i], new),
        (exists|k: int| 0 <= k < i && regex_found(old, #[trigger] lines[k])) ==> inlined(
            lines,
            old,
            new,
            false,
            true,
        )[i] == lines[i],
        !regex_found(old, lines[i]) ==> inlined(lines, old, new, false, true)[i] == lines[i],
{
    lemma_first_match(lines, old, 0);
    if exists|k: int| 0 <= k < i && regex_found(old, #[trigger] lines[k]) {
        let k = choose|k: int| 0 <= k < i && regex_found(old, #[trigger] lines[k]);
        assert(counts(lines, k));
        assert(line_holds(lines[k], old, true));
    }
    if regex_found(old, lines[i]) {
        assert(line_holds(lines[i], old, true));
    }
}

proof fn lemma_first_match(lines: Seq<Seq<char>>, old: Seq<char>, i: int)
    requires
        0 <= i,
    ensures
        ({
            let f = first_holding(lines, old, true, i);
            &&& f >= 0 ==> i <= f < lines.len() && regex_found(old, lines[f])
            &&& f < 0 ==> f == -1
            &&& forall|k: int|
                i <= k < lines.len() && (f < 0 || k < f) && counts(lines, k) ==> !line_holds(
                    #[trigger] lines[k],
                    old,
                    true,
                )
        }),
    decreases lines.len() - i,
{
    if i < lines.len() && !(counts(lines, i) && line_holds(lines[i], old, true)) {
        lemma_first_match(lines, old, i + 1);
    }
}

/// The indent of a place is the start of its first line that is not blank: as many characters as
/// take the bytes of the common indent.
pub proof fn first_solid_line_gives_the_indent(lines: Seq<Seq<char>>, f: int, k: int)
    requires
        0 <= f < lines.len(),
        !is_blank(lines[f]),
        forall|i: int| 0 <= i < f ==> is_blank(#[trigger] lines[i]),
        0 <= k <= lines[f].len(),
        byte_len(lines[f].take(k)) == common_indent(lines),
    ensures
        base_indent(lines) == lines[f].take(k),
{
    lemma_first_of_solid(lines, f);
    lemma_fits_exactly(lines[f], k);
}

proof fn lemma_first_of_solid(lines: Seq<Seq<char>>, f: int)
    requires
        0 <= f < lines.len(),
        !is_blank(lines[f]),
        forall|i: int| 0 <= i < f ==> is_blank(#[trigger] lines[i]),
    ensures
        first_solid(lines) == Some(lines[f]),
    decreases lines.len(),
{
    if f > 0 {
        assert(is_blank(lines[0]));
        let rest = lines.skip(1);
        assert(rest[f - 1] == lines[f]);
        assert forall|i: int| 0 <= i < f - 1 implies is_blank(#[trigger] rest[i]) by {
            assert(rest[i] == lines[i + 1]);
        }
        lemma_first_of_solid(rest, f - 1);
    }
}

/// Lines of blanks alone have no indent.
pub proof fn blank_place_has_no_indent(lines: Seq<Seq<char>>)
    requires
        forall|i: int| 0 <= i < lines.len() ==> is_blank(#[trigger] lines[i]),
    ensures
        base_indent(lines).len() == 0,
{
    lemma_no_solid(lines);
}

proof fn lemma_no_solid(lines: Seq<Seq<char>>)
    requires
        forall|i: int| 0 <= i < lines.len() ==> is_blank(#[trigger] lines[i]),
    ensures
        first_solid(lines) is None,
    decreases lines.len(),
{
    if lines.len() > 0 {
        assert(is_blank(lines[0]));
        let rest = lines.skip(1);
        assert forall|i: int| 0 <= i < rest.len() implies is_blank(#[trigger] rest[i]) by {
            assert(rest[i] == lines[i + 1]);
        }
        lemma_no_solid(rest);
    }
}

/// The same of a block that is replaced with the newline behind it, by a text that ends in one.
pub proof fn unindented_block_comes_back_with_its_newline(
    text: Seq<char>,
    h: Hunk,
    l: LocatedView,
    old: String,
    new: String,
    b: Seq<char>,
)
    requires
        h matches Hunk::Replace { old: o, new: n, .. } && o == old && n == new,
        old@.len() > 0 && old@.last() == '\n',
        within(text, l),
        l.tier >= 2,
        l.win_lines > 0,
        l.start_line + l.win_lines < split_nl(text).len(),
        lines_of(text, l).last().len() > 0,
        b.len() > 0,
        indent_is(lines_of(text, l), b),
        forall|i: int|
            0 <= i < l.win_lines && is_blank(#[trigger] lines_of(text, l)[i]) ==> lines_of(
                text,
                l,
            )[i].len() == 0,
        new@ == join(
            Seq::new(
                l.win_lines as nat,
                |i: int|
                    if lines_of(text, l)[i].len() == 0 {
                        Seq::empty()
                    } else {
                        lines_of(text, l)[i].skip(b.len() as int)
                    },
            ),
            nl(),
        ) + nl(),
    ensures
        resolved(text, h, l) matches OpView::Replace { start, end, new: put } && text.take(start)
            + put + text.skip(end) == text,
{
    let w = lines_of(text, l);
    let none = Seq::<char>::empty();
    let bare = Seq::new(
        l.win_lines as nat,
        |i: int|
            if lines_of(text, l)[i].len() == 0 {
                Seq::empty()
            } else {
                lines_of(text, l)[i].skip(b.len() as int)
            },
    );
    let all = bare.push(none);
    assert forall|i: int| 0 <= i < all.len() implies !(#[trigger] all[i]).contains('\n') by {
        if i < bare.len() {
            lines_hold_no_newline(text, l.start_line + i);
            assert(w[i] == split_nl(text)[l.start_line + i]);
            assert(all[i] == bare[i]);
            if bare[i].contains('\n') {
                let p = choose|p: int| 0 <= p < bare[i].len() && bare[i][p] == '\n';
                assert(w[i][p + b.len()] == '\n');
            }
        }
    }
    splitting_undoes_joining(all);
    joined_parts_stand_behind_separators(bare, nl(), none);
    assert(join(all, nl()) =~= new@);
    let r = lemma_indent_is(w, b);
    lemma_white(w[r], b.len() as int);
    assert(all[r] == w[r].skip(b.len() as int));
    assert(b.len() < w[r].len());
    assert(all[r][0] == w[r][b.len() as int]);
    assert(!is_blank(all[r]));
    assert(white_start(all[r], 0));
    assert forall|i: int| 0 <= i < all.len() && !is_blank(#[trigger] all[i]) implies
        none.is_prefix_of(all[i]) by {
        assert(all[i].take(0) =~= none);
    }
    assert(indent_is(all, none));
    replacement_is_indented_like_its_place(text, h, l, new, b, none);
    let put = resolved(text, h, l).text();
    let out = split_nl(put);
    assert(out =~= w.push(none)) by {
        assert forall|i: int| 0 <= i < out.len() implies #[trigger] out[i] == w.push(none)[i] by {
            if i == w.len() {
                assert(all[i] == none);
                assert(is_blank(all[i]));
                assert(out[i] =~= none);
            } else if w[i].len() == 0 {
                assert(all[i] =~= none);
                assert(is_blank(all[i]));
                assert(out[i] =~= w[i]);
            } else {
                assert(!is_blank(w[i]));
                assert(b.is_prefix_of(w[i]));
                assert(w[i].take(b.len() as int) =~= b);
                assert(!is_blank(all[i])) by {
                    if is_blank(all[i]) {
                        assert forall|p: int| 0 <= p < w[i].len() implies is_ws(
                            #[trigger] w[i][p],
                        ) by {
                            if p < b.len() {
                                assert(w[i][p] == b[p]);
                            } else {
                                assert(w[i][p] == all[i][p - b.len()]);
                            }
                        }
                    }
                }
                assert(all[i].skip(0) =~= all[i]);
                assert(b + w[i].skip(b.len() as int) =~= w[i]);
            }
        }
    }
    crate::lines::join_undoes_split(put);
    joined_parts_stand_behind_separators(w, nl(), none);
    replacement_takes_its_lines_out(text, l, true);
    let (start, end) = taken(text, l, true);
    assert(put =~= text.subrange(start, end));
    assert(text.take(start) + text.subrange(start, end) + text.skip(end) =~= text);
}

} // verus!
