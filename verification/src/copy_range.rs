//! Copying a range of lines, given by its first and last line, into a file.

use vstd::prelude::*;

use crate::edit::read::FileRead;
use crate::file_shared::{
    crlf, has_cr, lemma_newline_view_no_longer, lf_view, newline_view_of_pieces,
    newline_view_of_plain_text, newline_view_step, normalize_newlines,
};
use crate::format::{dec, decimal_size};
use crate::json::{opt_text, str_at, text_eq, Json};
use crate::lines::{extend, join, join_parts, lemma_split_short, nl, split_lines, split_nl, views};
use crate::numbered::{
    closing_newline_opens_no_line, count_split, counted_lines, lemma_line_count_short,
    lemma_one_line, lines_of_pieces,
};
use crate::outside::{debug_format, debug_text};
use crate::raw_lines::{
    breaks_off, close_off, closed_off, find_start, lemma_raw_start, line_break, next_line, raw_start,
    terminated,
};
use crate::search::{has_char, same};
use crate::text::{chars_of, slice_of, string_of, trim_end, trim_end_of};

verus! {

/// Where the lines go.
#[derive(Debug, Clone, Copy, PartialEq, Eq, Structural)]
pub enum Mode {
    InsertAfter,
    InsertBefore,
    Append,
    Prepend,
}

/// The name of a mode.
pub open spec fn mode_name(m: Mode) -> Seq<char> {
    match m {
        Mode::InsertAfter => "insert_after"@,
        Mode::InsertBefore => "insert_before"@,
        Mode::Append => "append"@,
        Mode::Prepend => "prepend"@,
    }
}

/// The mode that a name stands for.
pub open spec fn mode_named(s: Seq<char>) -> Option<Mode> {
    if s == "insert_after"@ {
        Some(Mode::InsertAfter)
    } else if s == "insert_before"@ {
        Some(Mode::InsertBefore)
    } else if s == "append"@ {
        Some(Mode::Append)
    } else if s == "prepend"@ {
        Some(Mode::Prepend)
    } else {
        None
    }
}

impl Mode {
    /// The mode that a name stands for.
    pub fn parse(s: &str) -> (r: Option<Mode>)
        ensures
            r == mode_named(s@),
    {
        if text_eq(s, "insert_after") {
            Some(Mode::InsertAfter)
        } else if text_eq(s, "insert_before") {
            Some(Mode::InsertBefore)
        } else if text_eq(s, "append") {
            Some(Mode::Append)
        } else if text_eq(s, "prepend") {
            Some(Mode::Prepend)
        } else {
            None
        }
    }

    /// The name of the mode.
    pub fn name(self) -> (r: &'static str)
        ensures
            r@ == mode_name(self),
    {
        match self {
            Mode::InsertAfter => "insert_after",
            Mode::InsertBefore => "insert_before",
            Mode::Append => "append",
            Mode::Prepend => "prepend",
        }
    }
}

/// Why a copy is refused.
#[derive(Debug, PartialEq, Eq)]
pub struct CopyRefusal {
    pub code: String,
    pub message: String,
    /// The 1-based lines that an anchor could mean.
    pub candidates: Vec<usize>,
    pub hint: Option<String>,
}

/// What a refusal says.
#[verifier::ext_equal]
pub struct CopyRefusalView {
    pub code: Seq<char>,
    pub message: Seq<char>,
    pub candidates: Seq<usize>,
    pub hint: Option<Seq<char>>,
}

impl View for CopyRefusal {
    type V = CopyRefusalView;

    open spec fn view(&self) -> CopyRefusalView {
        CopyRefusalView {
            code: self.code@,
            message: self.message@,
            candidates: self.candidates@,
            hint: opt_text(self.hint),
        }
    }
}

/// A refusal with nothing but a message.
pub open spec fn bare_refusal(code: Seq<char>, message: Seq<char>) -> CopyRefusalView {
    CopyRefusalView { code, message, candidates: Seq::<usize>::empty(), hint: None }
}

fn bare(code: &str, message: String) -> (r: CopyRefusal)
    ensures
        r@ == bare_refusal(code@, message@),
{
    CopyRefusal { code: code.to_owned(), message, candidates: Vec::new(), hint: None }
}

/// The lines below `n` that an anchor means: whole lines, but for white space at the
/// end.
pub open spec fn hits_upto(lines: Seq<Seq<char>>, anchor: Seq<char>, n: int) -> Seq<usize>
    decreases n,
{
    if n <= 0 {
        Seq::<usize>::empty()
    } else {
        let front = hits_upto(lines, anchor, n - 1);
        if trim_end(lines[n - 1]) == trim_end(anchor) {
            front.push((n - 1) as usize)
        } else {
            front
        }
    }
}

/// The lines that an anchor means.
pub open spec fn hits(lines: Seq<Seq<char>>, anchor: Seq<char>) -> Seq<usize> {
    hits_upto(lines, anchor, lines.len() as int)
}

/// The first line from `i` on that an anchor means.
pub open spec fn first_hit(lines: Seq<Seq<char>>, anchor: Seq<char>, i: int) -> Option<int>
    decreases lines.len() - i,
{
    if i < 0 || i >= lines.len() {
        None
    } else if trim_end(lines[i]) == trim_end(anchor) {
        Some(i)
    } else {
        first_hit(lines, anchor, i + 1)
    }
}

/// Finds the lines that an anchor means.
pub fn locate_exact(lines: &[Vec<char>], anchor: &str) -> (out: Vec<usize>)
    ensures
        out@ == hits(views(lines@), anchor@),
        forall|i: int| 0 <= i < out@.len() ==> (#[trigger] out@[i]) < lines@.len(),
{
    let a: Vec<char> = chars_of(anchor);
    let a: Vec<char> = trim_end_of(a.as_slice());
    let ghost v = views(lines@);
    let mut out: Vec<usize> = Vec::new();
    let mut i: usize = 0;
    while i < lines.len()
        invariant
            i <= lines@.len(),
            v == views(lines@),
            a@ == trim_end(anchor@),
            out@ == hits_upto(v, anchor@, i as int),
            forall|k: int| 0 <= k < out@.len() ==> (#[trigger] out@[k]) < i,
        decreases lines@.len() - i,
    {
        proof {
            assert(v[i as int] == lines@[i as int]@);
        }
        let t: Vec<char> = trim_end_of(lines[i].as_slice());
        if same(t.as_slice(), a.as_slice()) {
            out.push(i);
        }
        i = i + 1;
    }
    out
}

fn find_line(lines: &[Vec<char>], anchor: &str, from: usize) -> (r: Option<usize>)
    ensures
        match r {
            Some(i) => first_hit(views(lines@), anchor@, from as int) == Some(i as int) && from <= i
                < lines@.len(),
            None => first_hit(views(lines@), anchor@, from as int) is None,
        },
{
    let a: Vec<char> = chars_of(anchor);
    let a: Vec<char> = trim_end_of(a.as_slice());
    let ghost v = views(lines@);
    let mut i: usize = from;
    while i < lines.len()
        invariant
            from <= i,
            v == views(lines@),
            a@ == trim_end(anchor@),
            first_hit(v, anchor@, from as int) == first_hit(v, anchor@, i as int),
        decreases lines@.len() - i,
    {
        proof {
            assert(v[i as int] == lines@[i as int]@);
        }
        let t: Vec<char> = trim_end_of(lines[i].as_slice());
        if same(t.as_slice(), a.as_slice()) {
            return Some(i);
        }
        i = i + 1;
    }
    None
}

/// The first five of some lines, 1-based.
pub open spec fn first_five(found: Seq<usize>) -> Seq<usize> {
    let n = if found.len() < 5 {
        found.len()
    } else {
        5
    };
    Seq::new(n, |i: int| (found[i] + 1) as usize)
}

/// Lines as a list of `L` and number.
pub open spec fn line_names(found: Seq<usize>) -> Seq<char> {
    join(Seq::new(found.len(), |i: int| "L"@ + dec(found[i] as nat)), ", "@)
}

/// The refusal of an anchor that means several lines.
pub open spec fn ambiguous(code: Seq<char>, anchor: Seq<char>, found: Seq<usize>) -> CopyRefusalView {
    CopyRefusalView {
        code,
        message: "anchor "@ + debug_text(anchor) + " matches "@ + dec(found.len()) + " locations: "@
            + line_names(first_five(found)),
        candidates: first_five(found),
        hint: Some(
            "Make the anchor a longer/more unique line fragment, or add neighboring context in the anchor text (anchors match a WHOLE line)."@,
        ),
    }
}

/// The refusal of an anchor that means no line.
pub open spec fn not_found(code: Seq<char>, anchor: Seq<char>) -> CopyRefusalView {
    bare_refusal(
        code,
        "anchor "@ + debug_text(anchor)
            + " not found — check the exact line content (whitespace at line ends is tolerated; leading whitespace is significant)"@,
    )
}

fn ambiguous_error(code: &str, anchor: &str, found: &[usize]) -> (r: CopyRefusal)
    requires
        forall|i: int| 0 <= i < found@.len() ==> (#[trigger] found@[i]) < usize::MAX,
    ensures
        r@ == ambiguous(code@, anchor@, found@),
{
    let n: usize = found.len();
    let k: usize = if n < 5 { n } else { 5 };
    let ghost five = first_five(found@);
    let mut candidates: Vec<usize> = Vec::new();
    let mut names: Vec<Vec<char>> = Vec::new();
    let mut i: usize = 0;
    while i < k
        invariant
            i <= k <= n == found@.len(),
            k == five.len(),
            five == first_five(found@),
            forall|j: int| 0 <= j < found@.len() ==> (#[trigger] found@[j]) < usize::MAX,
            candidates@.len() == i,
            names@.len() == i,
            forall|j: int| 0 <= j < i ==> #[trigger] candidates@[j] == five[j],
            forall|j: int| 0 <= j < i ==> #[trigger] names@[j]@ == "L"@ + dec(five[j] as nat),
        decreases k - i,
    {
        let line: usize = found[i] + 1;
        let mut name: String = "L".to_owned();
        name.append(decimal_size(line).as_str());
        candidates.push(line);
        names.push(chars_of(name.as_str()));
        i = i + 1;
    }
    proof {
        assert(candidates@ =~= five);
        assert(views(names@) =~= Seq::new(five.len(), |j: int| "L"@ + dec(five[j] as nat)));
    }
    let sep: Vec<char> = chars_of(", ");
    let list: Vec<char> = join_parts(names.as_slice(), sep.as_slice());
    let mut message: String = "anchor ".to_owned();
    message.append(debug_format(anchor).as_str());
    message.append(" matches ");
    message.append(decimal_size(n).as_str());
    message.append(" locations: ");
    message.append(string_of(list.as_slice()).as_str());
    CopyRefusal {
        code: code.to_owned(),
        message,
        candidates,
        hint: Some(
            "Make the anchor a longer/more unique line fragment, or add neighboring context in the anchor text (anchors match a WHOLE line).".to_owned(),
        ),
    }
}

fn not_found_error(code: &str, anchor: &str) -> (r: CopyRefusal)
    ensures
        r@ == not_found(code@, anchor@),
{
    let mut message: String = "anchor ".to_owned();
    message.append(debug_format(anchor).as_str());
    message.append(
        " not found — check the exact line content (whitespace at line ends is tolerated; leading whitespace is significant)",
    );
    bare(code, message)
}

/// A file with some lines put in before line `k`: what was there keeps its bytes, and
/// every line ends in a line break.
pub open spec fn with_lines(raw: Seq<char>, k: int, lines: Seq<Seq<char>>) -> Seq<char> {
    let eol = line_break(raw);
    let p = raw_start(raw, k);
    closed_off(raw.take(p), eol) + terminated(lines, eol) + closed_off(raw.skip(p), eol)
}

/// What a copy does.
#[derive(Debug, PartialEq, Eq)]
pub struct RangeResult {
    /// How many lines are copied.
    pub copied: usize,
    /// First and last of them in the source, 1-based.
    pub range: (usize, usize),
    /// The 0-based line of the target that they come before.
    pub insert_at: usize,
    pub mode: Mode,
    /// The new content of the target.
    pub content: String,
}

/// What a copy does.
#[verifier::ext_equal]
pub struct RangeView {
    pub copied: int,
    pub range: (int, int),
    pub insert_at: int,
    pub mode: Mode,
    pub content: Seq<char>,
}

impl View for RangeResult {
    type V = RangeView;

    open spec fn view(&self) -> RangeView {
        RangeView {
            copied: self.copied as int,
            range: (self.range.0 as int, self.range.1 as int),
            insert_at: self.insert_at as int,
            mode: self.mode,
            content: self.content@,
        }
    }
}

/// Why a file could not be read.
pub open spec fn read_failure(file: FileRead) -> Option<Seq<char>> {
    match file {
        FileRead::Text(_) => None,
        FileRead::Missing => Some("No such file or directory"@),
        FileRead::NotUtf8 => Some("stream did not contain valid UTF-8"@),
        FileRead::Failed(e) => Some(e@),
    }
}

/// The range of lines that two anchors mean, or why they mean none.
pub open spec fn source_range(
    lines: Seq<Seq<char>>,
    start_anchor: Seq<char>,
    end_anchor: Option<Seq<char>>,
) -> Result<(int, int), CopyRefusalView> {
    let found = hits(lines, start_anchor);
    if found.len() == 0 {
        Err(not_found("SOURCE_START_NOT_FOUND"@, start_anchor))
    } else if found.len() > 1 {
        Err(ambiguous("SOURCE_START_AMBIGUOUS"@, start_anchor, found))
    } else {
        let s = found[0] as int;
        match end_anchor {
            None => Ok((s, s)),
            Some(a) => match first_hit(lines, a, s) {
                Some(e) => Ok((s, e)),
                None => Err(not_found("SOURCE_END_NOT_FOUND"@, a)),
            },
        }
    }
}

/// The line of the target before which the copy goes, or why there is none.
pub open spec fn target_line(lines: Seq<Seq<char>>, anchor: Option<Seq<char>>, mode: Mode) -> Result<
    int,
    CopyRefusalView,
> {
    match mode {
        Mode::Append => Ok(lines.len() as int),
        Mode::Prepend => Ok(0),
        _ => match anchor {
            None => Err(
                bare_refusal(
                    "MISSING_TARGET_ANCHOR"@,
                    "mode=\""@ + mode_name(mode) + "\" requires 'target_anchor'"@,
                ),
            ),
            Some(a) => {
                let found = hits(lines, a);
                if found.len() == 0 {
                    Err(not_found("TARGET_ANCHOR_NOT_FOUND"@, a))
                } else if found.len() > 1 {
                    Err(ambiguous("TARGET_ANCHOR_AMBIGUOUS"@, a, found))
                } else if mode == Mode::InsertAfter {
                    Ok(found[0] + 1)
                } else {
                    Ok(found[0] as int)
                }
            },
        },
    }
}

/// The refusal of a copy into its own range.
pub open spec fn inside_range(at: int, s: int, e: int) -> CopyRefusalView {
    CopyRefusalView {
        code: "INSERT_INSIDE_RANGE"@,
        message:
            "source and target are the same file and the insertion point (after line "@ + dec(
            at as nat,
        ) + ") lies inside the copied range L"@ + dec((s + 1) as nat) + "-L"@ + dec((e + 1) as nat)
            + " — copy would shift the range"@,
        candidates: Seq::<usize>::empty(),
        hint: Some(
            "Insert before the range start, after the range end, or use a different target file."@,
        ),
    }
}

/// A copy that is asked for.
pub struct CopyCall {
    pub source_path: String,
    pub source_start: String,
    pub source_end: Option<String>,
    pub target_path: String,
    pub target_anchor: Option<String>,
    pub mode: Mode,
}

/// The outcome of a copy, given what the two files hold and whether they are one.
pub open spec fn copy_outcome(call: CopyCall, source: FileRead, target: FileRead, same_file: bool) -> Result<
    RangeView,
    CopyRefusalView,
> {
    match source {
        FileRead::Text(src) => {
            let src_lines = counted_lines(lf_view(src@));
            match source_range(src_lines, call.source_start@, opt_text(call.source_end)) {
                Err(e) => Err(e),
                Ok((s, e)) => match target {
                    FileRead::Text(tgt) => {
                        let tgt_lines = counted_lines(lf_view(tgt@));
                        match target_line(tgt_lines, opt_text(call.target_anchor), call.mode) {
                            Err(r) => Err(r),
                            Ok(at) => if same_file && s < at <= e {
                                Err(inside_range(at, s, e))
                            } else {
                                Ok(
                                    RangeView {
                                        copied: e - s + 1,
                                        range: (s + 1, e + 1),
                                        insert_at: at,
                                        mode: call.mode,
                                        content: with_lines(
                                            tgt@,
                                            at,
                                            src_lines.subrange(s, e + 1),
                                        ),
                                    },
                                )
                            },
                        }
                    },
                    _ => Err(
                        bare_refusal(
                            "TARGET_READ_ERROR"@,
                            "failed to read target "@ + call.target_path@ + ": "@ + read_failure(
                                target,
                            )->0,
                        ),
                    ),
                },
            }
        },
        _ => Err(
            bare_refusal(
                "SOURCE_READ_ERROR"@,
                "failed to read source "@ + call.source_path@ + ": "@ + read_failure(source)->0,
            ),
        ),
    }
}

fn failure_of(file: &FileRead) -> (r: Option<String>)
    ensures
        opt_text(r) == read_failure(*file),
{
    match file {
        FileRead::Text(_) => None,
        FileRead::Missing => Some("No such file or directory".to_owned()),
        FileRead::NotUtf8 => Some("stream did not contain valid UTF-8".to_owned()),
        FileRead::Failed(e) => Some(e.clone()),
    }
}

fn lines_of_file(raw: &str) -> (lines: Vec<Vec<char>>)
    ensures
        views(lines@) == counted_lines(lf_view(raw@)),
{
    let (lf, _cr): (String, bool) = normalize_newlines(raw);
    let c: Vec<char> = chars_of(lf.as_str());
    let mut lines: Vec<Vec<char>> = split_lines(c.as_slice());
    proof {
        lemma_split_short(lf@);
    }
    let n: usize = count_split(lines.as_slice());
    let ghost all = views(lines@);
    if n < lines.len() {
        let last: Option<Vec<char>> = lines.pop();
        proof {
            assert(views(lines@) =~= all.take(n as int));
        }
    } else {
        proof {
            assert(all =~= all.take(n as int));
        }
    }
    lines
}

fn find_range(lines: &[Vec<char>], start_anchor: &str, end_anchor: Option<&str>) -> (r: Result<
    (usize, usize),
    CopyRefusal,
>)
    requires
        lines@.len() < usize::MAX,
    ensures
        ({
            let end = match end_anchor {
                Some(a) => Some(a@),
                None => None,
            };
            match r {
                Ok(p) => source_range(views(lines@), start_anchor@, end) == Ok::<
                    (int, int),
                    CopyRefusalView,
                >((p.0 as int, p.1 as int)) && p.0 <= p.1 < lines@.len(),
                Err(e) => source_range(views(lines@), start_anchor@, end) == Err::<
                    (int, int),
                    CopyRefusalView,
                >(e@),
            }
        }),
{
    let found: Vec<usize> = locate_exact(lines, start_anchor);
    if found.len() == 0 {
        return Err(not_found_error("SOURCE_START_NOT_FOUND", start_anchor));
    }
    if found.len() > 1 {
        return Err(
            ambiguous_error("SOURCE_START_AMBIGUOUS", start_anchor, found.as_slice()),
        );
    }
    let s: usize = found[0];
    match end_anchor {
        None => Ok((s, s)),
        Some(a) => match find_line(lines, a, s) {
            Some(e) => Ok((s, e)),
            None => Err(not_found_error("SOURCE_END_NOT_FOUND", a)),
        },
    }
}

fn find_target(lines: &[Vec<char>], anchor: Option<&str>, mode: Mode) -> (r: Result<
    usize,
    CopyRefusal,
>)
    requires
        lines@.len() < usize::MAX,
    ensures
        ({
            let a = match anchor {
                Some(a) => Some(a@),
                None => None,
            };
            match r {
                Ok(p) => target_line(views(lines@), a, mode) == Ok::<int, CopyRefusalView>(
                    p as int,
                ) && p <= lines@.len(),
                Err(e) => target_line(views(lines@), a, mode) == Err::<int, CopyRefusalView>(e@),
            }
        }),
{
    match mode {
        Mode::Append => Ok(lines.len()),
        Mode::Prepend => Ok(0),
        _ => {
            let a: &str = match anchor {
                Some(a) => a,
                None => {
                    let mut message: String = "mode=\"".to_owned();
                    message.append(mode.name());
                    message.append("\" requires 'target_anchor'");
                    return Err(bare("MISSING_TARGET_ANCHOR", message));
                },
            };
            let found: Vec<usize> = locate_exact(lines, a);
            if found.len() == 0 {
                return Err(not_found_error("TARGET_ANCHOR_NOT_FOUND", a));
            }
            if found.len() > 1 {
                return Err(ambiguous_error("TARGET_ANCHOR_AMBIGUOUS", a, found.as_slice()));
            }
            match mode {
                Mode::InsertAfter => Ok(found[0] + 1),
                _ => Ok(found[0]),
            }
        },
    }
}

fn put_lines(raw: &str, k: usize, lines: &[Vec<char>], from: usize, to: usize) -> (out: String)
    requires
        from <= to <= lines@.len(),
    ensures
        out@ == with_lines(
            raw@,
            k as int,
            views(lines@).subrange(from as int, to as int),
        ),
{
    let c: Vec<char> = chars_of(raw);
    let eol: Vec<char> = if has_char(c.as_slice(), '\r') {
        vec!['\r', '\n']
    } else {
        vec!['\n']
    };
    let ghost copied = views(lines@).subrange(from as int, to as int);
    proof {
        if has_cr(raw@) {
            assert(eol@ =~= crlf());
        } else {
            assert(eol@ =~= nl());
        }
    }
    let p: usize = find_start(c.as_slice(), k);
    let front: Vec<char> = slice_of(c.as_slice(), 0, p);
    let back: Vec<char> = slice_of(c.as_slice(), p, c.len());
    let mut out: Vec<char> = Vec::new();
    close_off(&mut out, front.as_slice(), eol.as_slice());
    let ghost head = out@;
    let mut i: usize = from;
    proof {
        assert(copied.take(0) =~= Seq::<Seq<char>>::empty());
        assert(head + terminated(copied.take(0), eol@) =~= head);
    }
    while i < to
        invariant
            from <= i <= to <= lines@.len(),
            copied == views(lines@).subrange(from as int, to as int),
            out@ == head + terminated(copied.take(i - from), eol@),
        decreases to - i,
    {
        let ghost so_far = out@;
        proof {
            assert(copied.take(i - from + 1).drop_last() =~= copied.take(i - from));
            assert(copied.take(i - from + 1).last() == views(lines@)[i as int]);
            assert(views(lines@)[i as int] == lines@[i as int]@);
        }
        extend(&mut out, lines[i].as_slice());
        extend(&mut out, eol.as_slice());
        i = i + 1;
        proof {
            assert(out@ =~= head + terminated(copied.take(i - from), eol@));
        }
    }
    let ghost mid = out@;
    close_off(&mut out, back.as_slice(), eol.as_slice());
    proof {
        assert(copied.take(to - from) =~= copied);
        assert(c@.subrange(0, p as int) =~= raw@.take(p as int));
        assert(c@.subrange(p as int, c@.len() as int) =~= raw@.skip(p as int));
        assert(head =~= closed_off(raw@.take(p as int), eol@));
        assert(out@ =~= with_lines(raw@, k as int, copied));
    }
    string_of(out.as_slice())
}

/// A copy as its view.
pub open spec fn copy_result(r: Result<RangeResult, CopyRefusal>) -> Result<RangeView, CopyRefusalView> {
    match r {
        Ok(x) => Ok(x@),
        Err(e) => Err(e@),
    }
}

fn as_str(s: &Option<String>) -> (r: Option<&str>)
    ensures
        match r {
            Some(t) => opt_text(*s) == Some(t@),
            None => opt_text(*s) is None,
        },
{
    match s {
        Some(t) => Some(t.as_str()),
        None => None,
    }
}

/// Works a copy out, given what the two files hold and whether they are one. A line
/// number has to fit, so no file has as many characters as there are numbers.
pub fn run_copy_range(call: &CopyCall, source: &FileRead, target: &FileRead, same_file: bool) -> (r:
    Result<RangeResult, CopyRefusal>)
    requires
        source matches FileRead::Text(t) ==> t@.len() < usize::MAX,
        target matches FileRead::Text(t) ==> t@.len() < usize::MAX,
    ensures
        copy_result(r) == copy_outcome(*call, *source, *target, same_file),
{
    let src: &String = match source {
        FileRead::Text(t) => t,
        _ => {
            let mut message: String = "failed to read source ".to_owned();
            message.append(call.source_path.as_str());
            message.append(": ");
            if let Some(e) = failure_of(source) {
                message.append(e.as_str());
            }
            return Err(bare("SOURCE_READ_ERROR", message));
        },
    };
    let src_lines: Vec<Vec<char>> = lines_of_file(src.as_str());
    proof {
        lemma_line_count_short(lf_view(src@));
        lemma_newline_view_no_longer(src@);
    }
    let (s, e): (usize, usize) = match find_range(
        src_lines.as_slice(),
        call.source_start.as_str(),
        as_str(&call.source_end),
    ) {
        Ok(p) => p,
        Err(e) => {
            return Err(e);
        },
    };
    let tgt: &String = match target {
        FileRead::Text(t) => t,
        _ => {
            let mut message: String = "failed to read target ".to_owned();
            message.append(call.target_path.as_str());
            message.append(": ");
            if let Some(e) = failure_of(target) {
                message.append(e.as_str());
            }
            return Err(bare("TARGET_READ_ERROR", message));
        },
    };
    let tgt_lines: Vec<Vec<char>> = lines_of_file(tgt.as_str());
    proof {
        lemma_line_count_short(lf_view(tgt@));
        lemma_newline_view_no_longer(tgt@);
    }
    let at: usize = match find_target(
        tgt_lines.as_slice(),
        as_str(&call.target_anchor),
        call.mode,
    ) {
        Ok(p) => p,
        Err(e) => {
            return Err(e);
        },
    };
    if same_file && at > s && at <= e {
        let mut message: String =
            "source and target are the same file and the insertion point (after line ".to_owned();
        message.append(decimal_size(at).as_str());
        message.append(") lies inside the copied range L");
        message.append(decimal_size(s + 1).as_str());
        message.append("-L");
        message.append(decimal_size(e + 1).as_str());
        message.append(" — copy would shift the range");
        return Err(
            CopyRefusal {
                code: "INSERT_INSIDE_RANGE".to_owned(),
                message,
                candidates: Vec::new(),
                hint: Some(
                    "Insert before the range start, after the range end, or use a different target file.".to_owned(),
                ),
            },
        );
    }
    let content: String = put_lines(tgt.as_str(), at, src_lines.as_slice(), s, e + 1);
    Ok(
        RangeResult {
            copied: e - s + 1,
            range: (s + 1, e + 1),
            insert_at: at,
            mode: call.mode,
            content,
        },
    )
}

/// Why the arguments of a copy are refused, if they are.
pub open spec fn copy_args_error(args: Json) -> Option<CopyRefusalView> {
    let mode = match str_at(args, "mode"@) {
        Some(m) => m,
        None => "append"@,
    };
    if str_at(args, "source_path"@) is None || str_at(args, "source_start"@) is None || str_at(
        args,
        "target_path"@,
    ) is None {
        Some(
            bare_refusal(
                "MISSING_ARGUMENT"@,
                "copy_range requires 'source_path', 'source_start' and 'target_path'"@,
            ),
        )
    } else if mode_named(mode) is None {
        Some(
            bare_refusal(
                "INVALID_MODE"@,
                "invalid mode — use one of: insert_after | insert_before | append | prepend"@,
            ),
        )
    } else {
        None
    }
}

/// Reads the arguments of a copy.
pub fn plan_copy(args: &Json) -> (r: Result<CopyCall, CopyRefusal>)
    ensures
        match r {
            Err(e) => copy_args_error(*args) == Some(e@),
            Ok(c) => {
                &&& copy_args_error(*args) is None
                &&& str_at(*args, "source_path"@) == Some(c.source_path@)
                &&& str_at(*args, "source_start"@) == Some(c.source_start@)
                &&& str_at(*args, "target_path"@) == Some(c.target_path@)
                &&& opt_text(c.source_end) == str_at(*args, "source_end"@)
                &&& opt_text(c.target_anchor) == str_at(*args, "target_anchor"@)
                &&& Some(c.mode) == mode_named(
                    match str_at(*args, "mode"@) {
                        Some(m) => m,
                        None => "append"@,
                    },
                )
            },
        },
{
    let (source_path, source_start, target_path): (&str, &str, &str) = match (
        args.get_str("source_path"),
        args.get_str("source_start"),
        args.get_str("target_path"),
    ) {
        (Some(a), Some(b), Some(c)) => (a, b, c),
        _ => {
            return Err(
                bare(
                    "MISSING_ARGUMENT",
                    "copy_range requires 'source_path', 'source_start' and 'target_path'".to_owned(),
                ),
            );
        },
    };
    let named: &str = match args.get_str("mode") {
        Some(m) => m,
        None => "append",
    };
    let mode: Mode = match Mode::parse(named) {
        Some(m) => m,
        None => {
            return Err(
                bare(
                    "INVALID_MODE",
                    "invalid mode — use one of: insert_after | insert_before | append | prepend".to_owned(),
                ),
            );
        },
    };
    Ok(
        CopyCall {
            source_path: source_path.to_owned(),
            source_start: source_start.to_owned(),
            source_end: match args.get_str("source_end") {
                Some(s) => Some(s.to_owned()),
                None => None,
            },
            target_path: target_path.to_owned(),
            target_anchor: match args.get_str("target_anchor") {
                Some(s) => Some(s.to_owned()),
                None => None,
            },
            mode,
        },
    )
}

/// The report on a copy.
pub open spec fn copy_text(call: CopyCall, r: RangeView) -> Seq<char> {
    "[OK] copy_range — "@ + dec(r.copied as nat) + " line(s) L"@ + dec(r.range.0 as nat) + "-L"@ + dec(
        r.range.1 as nat,
    ) + " copied: "@ + call.source_path@ + " → "@ + call.target_path@ + " ("@ + (
    match call.target_anchor {
        Some(a) => mode_name(r.mode) + " "@ + debug_text(a@),
        None => match r.mode {
            Mode::InsertAfter => "after line "@ + dec(r.insert_at as nat),
            Mode::InsertBefore => "before line "@ + dec((r.insert_at + 1) as nat),
            Mode::Append => "append"@,
            Mode::Prepend => "prepend"@,
        },
    }) + ")\n"@
}

/// Reports on a copy.
pub fn render_copy(call: &CopyCall, r: &RangeResult) -> (out: String)
    requires
        r.insert_at < usize::MAX,
    ensures
        out@ == copy_text(*call, r@),
{
    let place: String = match &call.target_anchor {
        Some(a) => {
            let mut t: String = r.mode.name().to_owned();
            t.append(" ");
            t.append(debug_format(a.as_str()).as_str());
            t
        },
        None => match r.mode {
            Mode::InsertAfter => {
                let mut t: String = "after line ".to_owned();
                t.append(decimal_size(r.insert_at).as_str());
                t
            },
            Mode::InsertBefore => {
                let mut t: String = "before line ".to_owned();
                t.append(decimal_size(r.insert_at + 1).as_str());
                t
            },
            Mode::Append => "append".to_owned(),
            Mode::Prepend => "prepend".to_owned(),
        },
    };
    let mut out: String = "[OK] copy_range — ".to_owned();
    out.append(decimal_size(r.copied).as_str());
    out.append(" line(s) L");
    out.append(decimal_size(r.range.0).as_str());
    out.append("-L");
    out.append(decimal_size(r.range.1).as_str());
    out.append(" copied: ");
    out.append(call.source_path.as_str());
    out.append(" → ");
    out.append(call.target_path.as_str());
    out.append(" (");
    out.append(place.as_str());
    out.append(")\n");
    out
}

proof fn lemma_view_end(s: Seq<char>)
    requires
        s.len() > 0,
    ensures
        lf_view(s).len() > 0,
        breaks_off(s) ==> lf_view(s).last() == '\n',
        !breaks_off(s) ==> lf_view(s).last() == s.last() && s.last() != '\n',
{
    let n = s.len() as int;
    let c = s.last();
    newline_view_step(seq![c]);
    newline_view_step(Seq::<char>::empty());
    assert(seq![c].skip(1) =~= Seq::<char>::empty());
    if c == '\n' && n > 1 && s[n - 2] == '\r' {
        let t = s.take(n - 2);
        assert(s =~= t + crlf());
        newline_view_of_pieces(t, crlf());
        newline_view_step(crlf());
        assert(crlf().skip(2) =~= Seq::<char>::empty());
        assert(lf_view(crlf()) =~= nl());
    } else {
        let t = s.drop_last();
        assert(s =~= t + seq![c]);
        newline_view_of_pieces(t, seq![c]);
    }
}

proof fn lemma_closed_off(s: Seq<char>, eol: Seq<char>)
    requires
        eol == nl() || eol == crlf(),
    ensures
        counted_lines(lf_view(closed_off(s, eol))) == counted_lines(lf_view(s)),
        lf_view(closed_off(s, eol)).len() == 0 || lf_view(closed_off(s, eol)).last() == '\n',
{
    newline_view_step(Seq::<char>::empty());
    if s.len() == 0 {
        assert(s =~= Seq::<char>::empty());
    } else {
        lemma_view_end(s);
        if !breaks_off(s) {
            lemma_break_view(eol);
            newline_view_of_pieces(s, eol);
            closing_newline_opens_no_line(lf_view(s));
        }
    }
}

proof fn lemma_break_view(eol: Seq<char>)
    requires
        eol == nl() || eol == crlf(),
    ensures
        lf_view(eol) == nl(),
{
    newline_view_step(eol);
    newline_view_step(Seq::<char>::empty());
    assert(nl().skip(1) =~= Seq::<char>::empty());
    assert(crlf().skip(2) =~= Seq::<char>::empty());
    assert(lf_view(eol) =~= nl());
}

/// A line without line breaks in it.
pub open spec fn plain_line(s: Seq<char>) -> bool {
    !s.contains('\n') && !s.contains('\r')
}

#[verifier::spinoff_prover]
#[verifier::rlimit(50)]
proof fn lemma_terminated(lines: Seq<Seq<char>>, eol: Seq<char>)
    requires
        eol == nl() || eol == crlf(),
        forall|i: int| 0 <= i < lines.len() ==> plain_line(#[trigger] lines[i]),
    ensures
        counted_lines(lf_view(terminated(lines, eol))) == lines,
        lf_view(terminated(lines, eol)).len() == 0 || lf_view(terminated(lines, eol)).last() == '\n',
        lines.len() > 0 ==> terminated(lines, eol).len() > 0 && terminated(lines, eol).last() == '\n',
    decreases lines.len(),
{
    newline_view_step(Seq::<char>::empty());
    if lines.len() == 0 {
        assert(counted_lines(Seq::<char>::empty()) =~= lines);
    } else {
        let front = lines.drop_last();
        let l = lines.last();
        assert forall|i: int| 0 <= i < front.len() implies plain_line(#[trigger] front[i]) by {
            assert(front[i] == lines[i]);
        }
        assert(plain_line(lines[lines.len() - 1]));
        lemma_terminated(front, eol);
        lemma_break_view(eol);
        let t = terminated(front, eol);
        newline_view_of_plain_text(l);
        if l.len() > 0 {
            assert(l.contains(l.last()));
        }
        newline_view_of_pieces(l, eol);
        assert(t + l + eol =~= t + (l + eol));
        if t.len() > 0 {
            assert(t.last() == '\n');
        }
        newline_view_of_pieces(t, l + eol);
        lemma_one_line(l);
        assert((l + nl()).drop_last() =~= l);
        assert((l + nl()).last() == '\n');
        assert(counted_lines(l + nl()) =~= seq![l]);
        lines_of_pieces(lf_view(t), l + nl());
        assert(lines =~= front.push(l));
        assert(front + seq![l] =~= lines);
        assert(terminated(lines, eol).last() == '\n');
    }
}

/// A line with its break, and what follows it.
proof fn lemma_segment(s: Seq<char>, p: int)
    requires
        0 <= p < s.len(),
    ensures
        ({
            let q = next_line(s, p);
            let seg = s.subrange(p, q);
            &&& p < q <= s.len()
            &&& q < s.len() ==> breaks_off(seg) && !(s[q - 1] == '\r' && s[q] == '\n')
            &&& counted_lines(lf_view(seg)).len() == 1
        }),
    decreases s.len() - p,
{
    let q = next_line(s, p);
    let seg = s.subrange(p, q);
    newline_view_step(Seq::<char>::empty());
    if s[p] == '\r' || s[p] == '\n' {
        newline_view_step(seg);
        if q == p + 2 {
            assert(seg.skip(2) =~= Seq::<char>::empty());
        } else {
            assert(seg.skip(1) =~= Seq::<char>::empty());
        }
        assert(lf_view(seg) =~= nl());
        lemma_split_short(Seq::<char>::empty());
        assert(nl().drop_last() =~= Seq::<char>::empty());
        assert(counted_lines(nl()).len() == 1);
    } else if p + 1 == s.len() {
        assert(next_line(s, p + 1) == s.len());
        newline_view_step(seg);
        assert(seg.skip(1) =~= Seq::<char>::empty());
        assert(lf_view(seg) =~= seg);
        assert(!seg.contains('\n'));
        lemma_one_line(seg);
        assert(counted_lines(seg).len() == 1);
    } else {
        lemma_segment(s, p + 1);
        let rest = s.subrange(p + 1, q);
        newline_view_step(seg);
        assert(seg[0] == s[p]);
        assert(seg.skip(1) =~= rest);
        let c = seq![s[p]];
        let x = lf_view(rest);
        assert(lf_view(seg) == c + x);
        lemma_longer_first_line(s[p], x);
        if q < s.len() {
            assert(rest.last() == seg.last());
        }
    }
}

proof fn lemma_longer_first_line(c: char, x: Seq<char>)
    requires
        c != '\n',
        counted_lines(x).len() == 1,
    ensures
        counted_lines(seq![c] + x).len() == 1,
{
    lemma_split_front(c, x);
    lemma_split_short(x);
    let all = split_nl(seq![c] + x);
    assert(all.len() == split_nl(x).len());
    if all.len() > 1 {
        assert(all.last() == split_nl(x).last());
    }
}

proof fn lemma_split_front(c: char, x: Seq<char>)
    requires
        c != '\n',
    ensures
        split_nl(seq![c] + x).len() == split_nl(x).len(),
        split_nl(seq![c] + x)[0] == seq![c] + split_nl(x)[0],
        forall|i: int|
            0 < i < split_nl(x).len() ==> #[trigger] split_nl(seq![c] + x)[i] == split_nl(x)[i],
    decreases x.len(),
{
    let all = seq![c] + x;
    lemma_split_short(x);
    if x.len() == 0 {
        assert(all =~= seq![c]);
        assert(!all.contains('\n'));
        lemma_one_line(all);
        assert(split_nl(x) =~= seq![Seq::<char>::empty()]);
        assert(seq![c] + Seq::<char>::empty() =~= seq![c]);
    } else {
        let f = x.drop_last();
        lemma_split_front(c, f);
        lemma_split_short(f);
        assert(all.drop_last() =~= seq![c] + f);
        assert(all.last() == x.last());
        let a = split_nl(seq![c] + f);
        let b = split_nl(f);
        if x.last() != '\n' {
            if b.len() == 1 {
                assert((seq![c] + b[0]).push(x.last()) =~= seq![c] + b[0].push(x.last()));
            } else {
                assert(a.last() == b.last());
            }
        }
    }
}

proof fn lemma_raw_lines(raw: Seq<char>, k: int)
    requires
        0 <= k <= counted_lines(lf_view(raw)).len(),
    ensures
        ({
            let p = raw_start(raw, k);
            let c = counted_lines(lf_view(raw));
            &&& 0 <= p <= raw.len()
            &&& p < raw.len() ==> (p == 0 || breaks_off(raw.take(p))) && !(p > 0 && raw[p - 1]
                == '\r' && raw[p] == '\n')
            &&& counted_lines(lf_view(raw.take(p))) == c.take(k)
            &&& counted_lines(lf_view(raw.skip(p))) == c.skip(k)
        }),
    decreases k,
{
    let c = counted_lines(lf_view(raw));
    newline_view_step(Seq::<char>::empty());
    assert(counted_lines(Seq::<char>::empty()) =~= Seq::<Seq<char>>::empty());
    if k <= 0 {
        assert(raw.take(0) =~= Seq::<char>::empty());
        assert(raw.skip(0) =~= raw);
        assert(c.skip(0) =~= c);
        assert(c.take(0) =~= Seq::<Seq<char>>::empty());
    } else {
        lemma_raw_lines(raw, k - 1);
        let o = raw_start(raw, k - 1);
        if o == raw.len() {
            assert(raw.skip(o) =~= Seq::<char>::empty());
            assert(c.skip(k - 1).len() == 0);
        } else {
            lemma_segment(raw, o);
            let p = raw_start(raw, k);
            let seg = raw.subrange(o, p);
            let head = raw.take(o);
            let tail = raw.skip(p);
            assert(raw.take(p) =~= head + seg);
            assert(raw.skip(o) =~= seg + tail);
            if head.len() > 0 {
                assert(head.last() == raw[o - 1]);
                lemma_view_end(head);
                assert(seg[0] == raw[o]);
            } else {
                assert(head =~= Seq::<char>::empty());
            }
            newline_view_of_pieces(head, seg);
            lines_of_pieces(lf_view(head), lf_view(seg));
            if tail.len() > 0 {
                assert(seg.last() == raw[p - 1]);
                assert(tail[0] == raw[p]);
                assert(raw.take(p).last() == raw[p - 1]);
                lemma_view_end(seg);
                newline_view_of_pieces(seg, tail);
                lines_of_pieces(lf_view(seg), lf_view(tail));
            } else {
                assert(tail =~= Seq::<char>::empty());
                assert(seg + tail =~= seg);
            }
            let one = counted_lines(lf_view(seg));
            assert(counted_lines(lf_view(raw.skip(o))) =~= one + counted_lines(lf_view(tail)));
            assert(c.skip(k - 1) =~= one + counted_lines(lf_view(tail)));
            assert(one[0] == c.skip(k - 1)[0]);
            assert(c.take(k) =~= c.take(k - 1) + one);
            assert(c.skip(k) =~= c.skip(k - 1).skip(1));
            assert((one + counted_lines(lf_view(tail))).skip(1) =~= counted_lines(lf_view(tail)));
        }
    }
}

/// The lines land where they are put and no other line changes: the file has the
/// lines before the place, the copied ones, and the lines after it.
pub proof fn copied_lines_land_in_place(raw: Seq<char>, k: int, lines: Seq<Seq<char>>)
    requires
        0 <= k <= counted_lines(lf_view(raw)).len(),
        lines.len() > 0,
        forall|i: int| 0 <= i < lines.len() ==> plain_line(#[trigger] lines[i]),
    ensures
        counted_lines(lf_view(with_lines(raw, k, lines))) == counted_lines(lf_view(raw)).take(k)
            + lines + counted_lines(lf_view(raw)).skip(k),
{
    let eol = line_break(raw);
    let p = raw_start(raw, k);
    let a = closed_off(raw.take(p), eol);
    let t = terminated(lines, eol);
    let b = closed_off(raw.skip(p), eol);
    lemma_raw_lines(raw, k);
    lemma_closed_off(raw.take(p), eol);
    lemma_closed_off(raw.skip(p), eol);
    lemma_terminated(lines, eol);
    lemma_first_char(lines, eol);
    if a.len() > 0 && a.last() == '\r' {
        assert(raw.take(p).last() == '\r');
        assert(raw.contains(raw[p - 1]));
    }
    newline_view_of_pieces(t, b);
    newline_view_of_pieces(a, t + b);
    lines_of_pieces(lf_view(t), lf_view(b));
    lines_of_pieces(lf_view(a), lf_view(t) + lf_view(b));
    assert(a + t + b =~= a + (t + b));
    let c = counted_lines(lf_view(raw));
    assert(c.take(k) + (lines + c.skip(k)) =~= c.take(k) + lines + c.skip(k));
}

proof fn lemma_first_char(lines: Seq<Seq<char>>, eol: Seq<char>)
    requires
        lines.len() > 0,
        eol == nl() || eol == crlf(),
        forall|i: int| 0 <= i < lines.len() ==> plain_line(#[trigger] lines[i]),
    ensures
        terminated(lines, eol).len() > 0,
        eol == crlf() ==> terminated(lines, eol)[0] != '\n',
    decreases lines.len(),
{
    let front = lines.drop_last();
    let l = lines.last();
    assert(plain_line(lines[lines.len() - 1]));
    let t = terminated(front, eol);
    if front.len() > 0 {
        assert forall|i: int| 0 <= i < front.len() implies plain_line(#[trigger] front[i]) by {
            assert(front[i] == lines[i]);
        }
        lemma_first_char(front, eol);
        assert(terminated(lines, eol)[0] == t[0]);
    } else {
        assert(t =~= Seq::<char>::empty());
        if l.len() > 0 {
            assert(terminated(lines, eol)[0] == l[0]);
            assert(l.contains(l[0]));
        } else {
            assert(terminated(lines, eol) =~= eol);
        }
    }
}

/// What was in the file before keeps its bytes: they are all there, in order, around
/// what was put in.
pub proof fn untouched_lines_keep_their_bytes(raw: Seq<char>, k: int, lines: Seq<Seq<char>>)
    ensures
        ({
            let p = raw_start(raw, k);
            let out = with_lines(raw, k, lines);
            &&& 0 <= p <= raw.len() <= out.len()
            &&& out.take(p) == raw.take(p)
            &&& exists|m: int|
                p <= m <= out.len() - (raw.len() - p) && #[trigger] out.subrange(
                    m,
                    m + raw.len() - p,
                ) == raw.skip(p)
        }),
{
    lemma_raw_start(raw, k);
    let eol = line_break(raw);
    let p = raw_start(raw, k);
    let a = closed_off(raw.take(p), eol);
    let t = terminated(lines, eol);
    let out = with_lines(raw, k, lines);
    let m = (a.len() + t.len()) as int;
    assert(out.take(p) =~= raw.take(p));
    assert(out.subrange(m, m + raw.len() - p) =~= raw.skip(p));
}

} // verus!
