//! Resolving located hunks to operations on the text.

use vstd::prelude::*;

use crate::edit::hunk::Hunk;
use crate::edit::indent::{common_indent, common_indent_of, strip_indent, stripped};
use crate::edit::locate::{within, Located, LocatedView};
use crate::edit::matching::window_of;
use crate::edit::place::lines_of;
use crate::edit::view::{start_of, FileView};
use crate::format::{chars_fitting, fitting};
use crate::lines::{extend, join, join_parts, nl, split_lines, split_nl, views};
use crate::outside::{
    regex_check, regex_error, regex_every, regex_first, regex_found, regex_is_match, regex_replace,
    regex_replace_all,
};
use crate::search::{ends_with, ends, find_at, find_from, lemma_has_find, occurs, replace, replaced};
use crate::text::{blank, chars_of, is_blank, slice_of, string_of};

verus! {

/// A change to a text: a range replaced, or text put in at a position.
#[derive(Debug, PartialEq, Eq)]
pub enum ResolvedOp {
    Replace { start: usize, end: usize, new: String },
    Insert { pos: usize, text: String },
}

/// What an operation says.
#[verifier::ext_equal]
pub enum OpView {
    Replace { start: int, end: int, new: Seq<char> },
    Insert { pos: int, text: Seq<char> },
}

impl View for ResolvedOp {
    type V = OpView;

    open spec fn view(&self) -> OpView {
        match *self {
            ResolvedOp::Replace { start, end, new } => OpView::Replace {
                start: start as int,
                end: end as int,
                new: new@,
            },
            ResolvedOp::Insert { pos, text } => OpView::Insert { pos: pos as int, text: text@ },
        }
    }
}

impl OpView {
    /// Where the operation starts.
    pub open spec fn start(self) -> int {
        match self {
            OpView::Replace { start, .. } => start,
            OpView::Insert { pos, .. } => pos,
        }
    }

    /// Where the text it takes out ends.
    pub open spec fn end(self) -> int {
        match self {
            OpView::Replace { end, .. } => end,
            OpView::Insert { pos, .. } => pos,
        }
    }

    /// The text it puts in.
    pub open spec fn text(self) -> Seq<char> {
        match self {
            OpView::Replace { new, .. } => new,
            OpView::Insert { text, .. } => text,
        }
    }

    /// The operation lies within a text of `n` characters.
    pub open spec fn fits(self, n: int) -> bool {
        0 <= self.start() <= self.end() <= n
    }
}

impl ResolvedOp {
    /// Where the operation starts.
    pub fn start(&self) -> (r: usize)
        ensures
            r == self@.start(),
    {
        match self {
            ResolvedOp::Replace { start, .. } => *start,
            ResolvedOp::Insert { pos, .. } => *pos,
        }
    }

    /// Where the text it takes out ends.
    pub fn end(&self) -> (r: usize)
        ensures
            r == self@.end(),
    {
        match self {
            ResolvedOp::Replace { end, .. } => *end,
            ResolvedOp::Insert { pos, .. } => *pos,
        }
    }
}

/// The characters that a replacement takes out: the lines of the place, with the
/// newline after the last one only when asked for.
pub open spec fn taken(text: Seq<char>, l: LocatedView, with_newline: bool) -> (int, int) {
    if l.win_lines == 0 {
        (l.start_char, l.end_char)
    } else {
        let start = start_of(text, l.start_line);
        let end = start_of(text, l.start_line + l.win_lines);
        if !with_newline && start < end && text[end - 1] == '\n' {
            (start, end - 1)
        } else {
            (start, end)
        }
    }
}

/// The range that a replacement takes out.
pub fn replace_range(view: &FileView, loc: &Located, with_newline: bool) -> (r: (usize, usize))
    requires
        view.wf(),
        within(view.content@, loc@),
    ensures
        (r.0 as int, r.1 as int) == taken(view.content@, loc@, with_newline),
        r.0 <= r.1 <= view.content@.len(),
{
    if loc.win_lines == 0 {
        return (loc.start_char, loc.end_char);
    }
    let (start, end): (usize, usize) = view.char_range(loc.start_line, loc.win_lines);
    if with_newline || end <= start {
        return (start, end);
    }
    if view.content[end - 1] == '\n' {
        (start, end - 1)
    } else {
        (start, end)
    }
}

/// The first line that is not blank.
pub open spec fn first_solid(lines: Seq<Seq<char>>) -> Option<Seq<char>>
    decreases lines.len(),
{
    if lines.len() == 0 {
        None
    } else if !is_blank(lines[0]) {
        Some(lines[0])
    } else {
        first_solid(lines.skip(1))
    }
}

/// The common indent of some lines as text: that much of the first line that is
/// not blank, in whole characters.
pub open spec fn base_indent(lines: Seq<Seq<char>>) -> Seq<char> {
    match first_solid(lines) {
        Some(l) => l.take(fitting(l, common_indent(lines)) as int),
        None => Seq::<char>::empty(),
    }
}

/// The common indent of a place's lines.
pub fn window_indent(view: &FileView, loc: &Located) -> (out: Vec<char>)
    requires
        view.wf(),
        within(view.content@, loc@),
    ensures
        out@ == base_indent(lines_of(view.content@, loc@)),
{
    let w: Vec<Vec<char>> = window_of(view.lines.as_slice(), loc.start_line, loc.win_lines);
    let m: u128 = common_indent_of(w.as_slice());
    let ghost g = views(w@);
    let mut i: usize = 0;
    proof {
        assert(g =~= lines_of(view.content@, loc@));
        assert(g.skip(0) =~= g);
    }
    while i < w.len()
        invariant
            i <= w@.len(),
            g == views(w@),
            g == lines_of(view.content@, loc@),
            m == common_indent(g),
            first_solid(g) == first_solid(g.skip(i as int)),
        decreases w@.len() - i,
    {
        proof {
            assert(g.skip(i as int)[0] == w@[i as int]@);
            assert(g.skip(i as int).skip(1) =~= g.skip(i + 1));
        }
        if !blank(w[i].as_slice()) {
            let k: usize = chars_fitting(w[i].as_slice(), m);
            proof {
                let l = w@[i as int]@;
                assert(l.subrange(0, k as int) =~= l.take(k as int));
            }
            return slice_of(w[i].as_slice(), 0, k);
        }
        i = i + 1;
    }
    Vec::new()
}

/// Lines with a base indent before each that is not empty.
pub open spec fn indented(lines: Seq<Seq<char>>, base: Seq<char>) -> Seq<Seq<char>> {
    Seq::new(
        lines.len(),
        |i: int|
            if lines[i].len() == 0 {
                Seq::<char>::empty()
            } else {
                base + lines[i]
            },
    )
}

/// A text moved to a base indent: its own common indent is taken off, then the
/// base is put before every line that is not empty.
pub open spec fn reindented(new: Seq<char>, base: Seq<char>) -> Seq<char> {
    if new.len() == 0 || base.len() == 0 {
        new
    } else {
        join(indented(stripped(split_nl(new)), base), nl())
    }
}

/// Moves a text to a base indent.
pub fn reindent(new: &[char], base: &[char]) -> (out: Vec<char>)
    ensures
        out@ == reindented(new@, base@),
{
    if new.len() == 0 || base.len() == 0 {
        proof {
            assert(new@.subrange(0, new@.len() as int) =~= new@);
        }
        return slice_of(new, 0, new.len());
    }
    let lines: Vec<Vec<char>> = split_lines(new);
    let st: Vec<Vec<char>> = strip_indent(lines.as_slice());
    let ghost g = views(st@);
    let mut out: Vec<Vec<char>> = Vec::new();
    let mut i: usize = 0;
    while i < st.len()
        invariant
            i <= st@.len(),
            g == views(st@),
            out@.len() == i,
            forall|k: int| 0 <= k < i ==> #[trigger] out@[k]@ == indented(g, base@)[k],
        decreases st@.len() - i,
    {
        let mut l: Vec<char> = Vec::new();
        proof {
            assert(g[i as int] == st@[i as int]@);
        }
        if st[i].len() > 0 {
            extend(&mut l, base);
            extend(&mut l, st[i].as_slice());
        }
        proof {
            assert(l@ =~= indented(g, base@)[i as int]);
        }
        out.push(l);
        i = i + 1;
    }
    let newline: Vec<char> = vec!['\n'];
    proof {
        assert(newline@ =~= nl());
        assert(views(out@) =~= indented(g, base@));
    }
    join_parts(out.as_slice(), newline.as_slice())
}

/// A line holds the text, or matches the expression.
pub open spec fn line_holds(line: Seq<char>, old: Seq<char>, regex: bool) -> bool {
    if regex {
        regex_found(old, line)
    } else {
        occurs(line, old)
    }
}

/// A line with its first occurrence replaced.
pub open spec fn first_replaced(line: Seq<char>, old: Seq<char>, new: Seq<char>, regex: bool) -> Seq<
    char,
> {
    if regex {
        regex_first(old, line, new)
    } else {
        let p = find_from(line, old, 0);
        line.take(p) + new + line.skip(p + old.len())
    }
}

/// A line with every occurrence replaced.
pub open spec fn all_replaced(line: Seq<char>, old: Seq<char>, new: Seq<char>, regex: bool) -> Seq<
    char,
> {
    if regex {
        regex_every(old, line, new)
    } else {
        replaced(line, old, new)
    }
}

/// Line `i` of a text counts as a line: all do but an empty one at the very end.
pub open spec fn counts(lines: Seq<Seq<char>>, i: int) -> bool {
    i < lines.len() - 1 || lines[i].len() > 0
}

/// The first line from `i` on that holds the text.
pub open spec fn first_holding(lines: Seq<Seq<char>>, old: Seq<char>, regex: bool, i: int) -> int
    decreases lines.len() - i,
{
    if i >= lines.len() {
        -1
    } else if counts(lines, i) && line_holds(lines[i], old, regex) {
        i
    } else {
        first_holding(lines, old, regex, i + 1)
    }
}

/// The lines after an in-line replacement: every occurrence in every line, or the
/// first occurrence in the first line that has one.
pub open spec fn inlined(
    lines: Seq<Seq<char>>,
    old: Seq<char>,
    new: Seq<char>,
    every: bool,
    regex: bool,
) -> Seq<Seq<char>> {
    Seq::new(
        lines.len(),
        |i: int|
            if !counts(lines, i) {
                lines[i]
            } else if every {
                all_replaced(lines[i], old, new, regex)
            } else if i == first_holding(lines, old, regex, 0) {
                first_replaced(lines[i], old, new, regex)
            } else {
                lines[i]
            },
    )
}

/// A text after an in-line replacement.
pub open spec fn inline_text(
    window: Seq<char>,
    old: Seq<char>,
    new: Seq<char>,
    every: bool,
    regex: bool,
) -> Seq<char> {
    join(inlined(split_nl(window), old, new, every, regex), nl())
}

fn replace_in_line(
    line: &[char],
    old: &str,
    old_chars: &[char],
    new: &str,
    every: bool,
    regex: bool,
) -> (r: Option<Vec<char>>)
    requires
        old_chars@ == old@,
        regex ==> regex_error(old@) is None,
    ensures
        match r {
            Some(v) => v@ == (if every {
                all_replaced(line@, old@, new@, regex)
            } else {
                first_replaced(line@, old@, new@, regex)
            }) && (every || line_holds(line@, old@, regex)),
            None => !every && !line_holds(line@, old@, regex),
        },
{
    if regex {
        let text: String = string_of(line);
        if every {
            let out: String = regex_replace_all(old, text.as_str(), new);
            Some(chars_of(out.as_str()))
        } else if regex_is_match(old, text.as_str()) {
            let out: String = regex_replace(old, text.as_str(), new);
            Some(chars_of(out.as_str()))
        } else {
            None
        }
    } else {
        let new_chars: Vec<char> = chars_of(new);
        if every {
            Some(replace(line, old_chars, new_chars.as_slice()))
        } else {
            proof {
                lemma_has_find(line@, old@);
                crate::search::lemma_find_from(line@, old@, 0);
            }
            match find_at(line, old_chars, 0) {
                Some(p) => {
                    let n: usize = line.len();
                    let mut out: Vec<char> = slice_of(line, 0, p);
                    extend(&mut out, new_chars.as_slice());
                    let rest: Vec<char> = slice_of(line, p + old_chars.len(), line.len());
                    extend(&mut out, rest.as_slice());
                    proof {
                        assert(line@.subrange(0, p as int) =~= line@.take(p as int));
                        assert(line@.subrange(p + old@.len(), line@.len() as int) =~= line@.skip(
                            p + old@.len(),
                        ));
                    }
                    Some(out)
                },
                None => None,
            }
        }
    }
}

/// Replaces inside the lines of a text, never across lines: the first occurrence,
/// or every one. The error is that of an expression that does not compile.
pub fn inline_replace(window: &[char], old: &str, new: &str, replace_all: bool, regex: bool) -> (r:
    Result<Vec<char>, String>)
    ensures
        match r {
            Ok(out) => {
                &&& !(regex && regex_error(old@) is Some)
                &&& out@ == inline_text(window@, old@, new@, replace_all, regex)
            },
            Err(e) => regex && regex_error(old@) == Some(e@),
        },
{
    if regex {
        match regex_check(old) {
            Some(e) => {
                return Err(e);
            },
            None => {},
        }
    }
    let old_chars: Vec<char> = chars_of(old);
    let lines: Vec<Vec<char>> = split_lines(window);
    let ghost g = views(lines@);
    let ghost spec = inlined(g, old@, new@, replace_all, regex);
    let mut out: Vec<Vec<char>> = Vec::new();
    let mut done: bool = false;
    let mut i: usize = 0;
    while i < lines.len()
        invariant
            i <= lines@.len(),
            g == views(lines@),
            old_chars@ == old@,
            regex ==> regex_error(old@) is None,
            spec == inlined(g, old@, new@, replace_all, regex),
            done ==> !replace_all && 0 <= first_holding(g, old@, regex, 0) < i,
            !done ==> first_holding(g, old@, regex, 0) == first_holding(g, old@, regex, i as int)
                || replace_all,
            out@.len() == i,
            forall|k: int| 0 <= k < i ==> #[trigger] out@[k]@ == spec[k],
        decreases lines@.len() - i,
    {
        proof {
            assert(g[i as int] == lines@[i as int]@);
            if !done && !replace_all {
                lemma_first_holding(g, old@, regex, i as int);
                lemma_first_holding(g, old@, regex, i + 1);
            }
        }
        let whole: Vec<char> = slice_of(lines[i].as_slice(), 0, lines[i].len());
        proof {
            assert(lines@[i as int]@.subrange(0, lines@[i as int]@.len() as int)
                =~= lines@[i as int]@);
        }
        let last: bool = i == lines.len() - 1 && lines[i].len() == 0;
        if done || last {
            out.push(whole);
        } else {
            match replace_in_line(
                lines[i].as_slice(),
                old,
                old_chars.as_slice(),
                new,
                replace_all,
                regex,
            ) {
                Some(v) => {
                    out.push(v);
                    if !replace_all {
                        done = true;
                    }
                },
                None => {
                    out.push(whole);
                },
            }
        }
        i = i + 1;
    }
    let newline: Vec<char> = vec!['\n'];
    proof {
        assert(newline@ =~= nl());
        assert(views(out@) =~= spec);
    }
    Ok(join_parts(out.as_slice(), newline.as_slice()))
}

proof fn lemma_first_holding(lines: Seq<Seq<char>>, old: Seq<char>, regex: bool, i: int)
    requires
        0 <= i,
    ensures
        first_holding(lines, old, regex, i) == -1 || i <= first_holding(lines, old, regex, i)
            < lines.len(),
    decreases lines.len() - i,
{
    if i < lines.len() && !(counts(lines, i) && line_holds(lines[i], old, regex)) {
        lemma_first_holding(lines, old, regex, i + 1);
    }
}

/// Text to put after what has no newline at its end starts with one.
pub open spec fn on_new_line(text: Seq<char>, new: Seq<char>) -> Seq<char> {
    if ends(text, nl()) {
        new
    } else {
        nl() + new
    }
}

/// The operation of a hunk at a place.
pub open spec fn resolved(text: Seq<char>, h: Hunk, l: LocatedView) -> OpView {
    match h {
        Hunk::Replace { old, new, .. } => {
            let r = taken(text, l, old@.len() > 0 && old@.last() == '\n');
            OpView::Replace {
                start: r.0,
                end: r.1,
                new: if l.tier >= 2 {
                    reindented(new@, base_indent(lines_of(text, l)))
                } else {
                    new@
                },
            }
        },
        Hunk::Overwrite { new } => OpView::Replace { start: 0, end: text.len() as int, new: new@ },
        Hunk::InsertAfter { new, .. } => {
            let pos = start_of(text, l.start_line + l.win_lines);
            OpView::Insert {
                pos,
                text: if pos == text.len() {
                    on_new_line(text, new@)
                } else {
                    new@
                },
            }
        },
        Hunk::InsertBefore { new, .. } => OpView::Insert {
            pos: start_of(text, l.start_line),
            text: new@,
        },
        Hunk::PrependFile { new } => OpView::Insert { pos: 0, text: new@ },
        Hunk::AppendFile { new } => OpView::Insert {
            pos: text.len() as int,
            text: if text.len() > 0 {
                on_new_line(text, new@)
            } else {
                new@
            },
        },
        Hunk::ReplaceInline { old, new, replace_all, regex, .. } => {
            let start = start_of(text, l.start_line);
            let end = start_of(text, l.start_line + l.win_lines);
            OpView::Replace {
                start,
                end,
                new: inline_text(text.subrange(start, end), old@, new@, replace_all, regex),
            }
        },
    }
}

/// A hunk whose expression, if it has one, compiles.
pub open spec fn compiles(h: Hunk) -> bool {
    match h {
        Hunk::ReplaceInline { old, regex, .. } => regex ==> regex_error(old@) is None,
        _ => true,
    }
}

fn ends_in_newline(content: &[char]) -> (r: bool)
    ensures
        r == ends(content@, nl()),
{
    let newline: Vec<char> = vec!['\n'];
    proof {
        assert(newline@ =~= nl());
    }
    ends_with(content, newline.as_slice())
}

fn with_break(new: &str) -> (out: String)
    ensures
        out@ == nl() + new@,
{
    let mut out: String = "\n".to_owned();
    proof {
        reveal_strlit("\n");
        assert(out@ =~= nl());
    }
    out.append(new);
    out
}

fn replacement(view: &FileView, loc: &Located, old: &str, new: &str) -> (op: ResolvedOp)
    requires
        view.wf(),
        within(view.content@, loc@),
    ensures
        op@ == (OpView::Replace {
            start: taken(view.content@, loc@, old@.len() > 0 && old@.last() == '\n').0,
            end: taken(view.content@, loc@, old@.len() > 0 && old@.last() == '\n').1,
            new: if loc.tier >= 2 {
                reindented(new@, base_indent(lines_of(view.content@, loc@)))
            } else {
                new@
            },
        }),
        op@.fits(view.content@.len() as int),
{
    let old_chars: Vec<char> = chars_of(old);
    let n: usize = old_chars.len();
    let with_newline: bool = n > 0 && old_chars[n - 1] == '\n';
    let (start, end): (usize, usize) = replace_range(view, loc, with_newline);
    let text: String = if loc.tier >= 2 {
        let base: Vec<char> = window_indent(view, loc);
        let new_chars: Vec<char> = chars_of(new);
        let moved: Vec<char> = reindent(new_chars.as_slice(), base.as_slice());
        string_of(moved.as_slice())
    } else {
        new.to_owned()
    };
    ResolvedOp::Replace { start, end, new: text }
}

/// Resolves a hunk at a place to an operation on the text.
pub fn resolve(view: &FileView, hunk: &Hunk, loc: &Located) -> (op: ResolvedOp)
    requires
        view.wf(),
        within(view.content@, loc@),
        compiles(*hunk),
    ensures
        op@ == resolved(view.content@, *hunk, loc@),
        op@.fits(view.content@.len() as int),
{
    let n: usize = view.lines.len();
    match hunk {
        Hunk::Replace { old, new, .. } => replacement(view, loc, old.as_str(), new.as_str()),
        Hunk::Overwrite { new } => ResolvedOp::Replace {
            start: 0,
            end: view.char_len(),
            new: new.clone(),
        },
        Hunk::InsertAfter { new, .. } => {
            let (_start, pos): (usize, usize) = view.char_range(loc.start_line, loc.win_lines);
            let text: String = if pos == view.char_len() && !ends_in_newline(
                view.content.as_slice(),
            ) {
                with_break(new.as_str())
            } else {
                new.clone()
            };
            ResolvedOp::Insert { pos, text }
        },
        Hunk::InsertBefore { new, .. } => {
            let (pos, _end): (usize, usize) = view.char_range(loc.start_line, loc.win_lines);
            ResolvedOp::Insert { pos, text: new.clone() }
        },
        Hunk::PrependFile { new } => ResolvedOp::Insert { pos: 0, text: new.clone() },
        Hunk::AppendFile { new } => {
            let text: String = if view.char_len() > 0 && !ends_in_newline(view.content.as_slice()) {
                with_break(new.as_str())
            } else {
                new.clone()
            };
            ResolvedOp::Insert { pos: view.char_len(), text }
        },
        Hunk::ReplaceInline { old, new, replace_all, regex, .. } => {
            let (start, end): (usize, usize) = view.char_range(loc.start_line, loc.win_lines);
            let window: Vec<char> = slice_of(view.content.as_slice(), start, end);
            match inline_replace(
                window.as_slice(),
                old.as_str(),
                new.as_str(),
                *replace_all,
                *regex,
            ) {
                Ok(out) => ResolvedOp::Replace { start, end, new: string_of(out.as_slice()) },
                Err(_) => ResolvedOp::Replace { start, end, new: string_of(window.as_slice()) },
            }
        },
    }
}

} // verus!
