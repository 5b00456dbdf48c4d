//! Patches as text.
//!
//! ```text
//! start: begin_patch environment_id? hunk+ end_patch
//! begin_patch: "*** Begin Patch" LF
//! environment_id: "*** Environment ID: " filename LF
//! end_patch: "*** End Patch" LF?
//! hunk: add_hunk | delete_hunk | update_hunk
//! add_hunk: "*** Add File: " filename LF add_line+
//! delete_hunk: "*** Delete File: " filename LF
//! update_hunk: "*** Update File: " filename LF change_move? change?
//! filename: /(.+)/
//! add_line: "+" /(.+)/ LF -> line
//! change_move: "*** Move to: " filename LF
//! change: (change_context | change_line)+ eof_line?
//! change_context: ("@@" | "@@ " /(.+)/) LF
//! change_line: ("+" | "-" | " ") /(.+)/ LF
//! eof_line: "*** End of File" LF
//! ```
//!
//! White space around markers is allowed, an empty line inside a change stands for an
//! empty context line, and the whole patch may stand in a here-document.

use vstd::prelude::*;

use crate::format::{dec, decimal_size};
use crate::json::{opt_text, texts};
use crate::lines::{extend, join, join_parts, nl, split_lines, split_nl, views};
use crate::search::{at, ends, ends_with, same, starts_with};
use crate::text::{blank, chars_of, is_blank, slice_of, string_of, trim, trim_end, trim_end_of, trim_of};

verus! {

/// Why a text is no patch.
#[derive(Debug, PartialEq, Eq)]
pub enum ParseError {
    InvalidPatchError(String),
    InvalidHunkError { message: String, line_number: usize },
}

/// What a parse error says.
#[verifier::ext_equal]
pub enum ParseErrorView {
    InvalidPatchError(Seq<char>),
    InvalidHunkError { message: Seq<char>, line_number: int },
}

impl View for ParseError {
    type V = ParseErrorView;

    open spec fn view(&self) -> ParseErrorView {
        match *self {
            ParseError::InvalidPatchError(m) => ParseErrorView::InvalidPatchError(m@),
            ParseError::InvalidHunkError { message, line_number } =>
                ParseErrorView::InvalidHunkError {
                message: message@,
                line_number: line_number as int,
            },
        }
    }
}

/// A parse error in words.
pub open spec fn parse_error_text(e: ParseErrorView) -> Seq<char> {
    match e {
        ParseErrorView::InvalidPatchError(m) => "invalid patch: "@ + m,
        ParseErrorView::InvalidHunkError { message, line_number } => "invalid hunk at line "@ + dec(
            line_number as nat,
        ) + ", "@ + message,
    }
}

impl ParseError {
    /// The error in words.
    pub fn to_text(&self) -> (out: String)
        ensures
            out@ == parse_error_text(self@),
    {
        match self {
            ParseError::InvalidPatchError(m) => {
                let mut out: String = "invalid patch: ".to_owned();
                out.append(m.as_str());
                out
            },
            ParseError::InvalidHunkError { message, line_number } => {
                let mut out: String = "invalid hunk at line ".to_owned();
                out.append(decimal_size(*line_number).as_str());
                out.append(", ");
                out.append(message.as_str());
                out
            },
        }
    }
}

/// One file of a patch.
#[derive(Debug, PartialEq, Eq)]
pub enum Hunk {
    AddFile { path: String, contents: String },
    DeleteFile { path: String },
    UpdateFile {
        path: String,
        move_path: Option<String>,
        /// In the order in which they occur in the file.
        chunks: Vec<UpdateFileChunk>,
    },
}

/// One change of a file.
#[derive(Debug, PartialEq, Eq)]
pub struct UpdateFileChunk {
    /// A line after which the change is to be looked for.
    pub change_context: Option<String>,
    /// The lines that are replaced.
    pub old_lines: Vec<String>,
    /// The lines that replace them.
    pub new_lines: Vec<String>,
    /// The places of context lines in `old_lines` and in `new_lines`.
    pub context_line_indices: Vec<(usize, usize)>,
    /// The old lines end the file.
    pub is_end_of_file: bool,
}

/// What a change says.
#[verifier::ext_equal]
pub struct ChunkView {
    pub context: Option<Seq<char>>,
    pub old_lines: Seq<Seq<char>>,
    pub new_lines: Seq<Seq<char>>,
    pub kept: Seq<(int, int)>,
    pub eof: bool,
}

/// Pairs of places as numbers.
pub open spec fn pair_views(v: Seq<(usize, usize)>) -> Seq<(int, int)> {
    Seq::new(v.len(), |i: int| (v[i].0 as int, v[i].1 as int))
}

impl View for UpdateFileChunk {
    type V = ChunkView;

    open spec fn view(&self) -> ChunkView {
        ChunkView {
            context: opt_text(self.change_context),
            old_lines: texts(self.old_lines@),
            new_lines: texts(self.new_lines@),
            kept: pair_views(self.context_line_indices@),
            eof: self.is_end_of_file,
        }
    }
}

/// What a list of changes says.
pub open spec fn chunk_views(v: Seq<UpdateFileChunk>) -> Seq<ChunkView> {
    Seq::new(v.len(), |i: int| v[i]@)
}

/// What a file of a patch says.
#[verifier::ext_equal]
pub enum HunkView {
    AddFile { path: Seq<char>, contents: Seq<char> },
    DeleteFile { path: Seq<char> },
    UpdateFile { path: Seq<char>, move_path: Option<Seq<char>>, chunks: Seq<ChunkView> },
}

impl View for Hunk {
    type V = HunkView;

    open spec fn view(&self) -> HunkView {
        match *self {
            Hunk::AddFile { path, contents } => HunkView::AddFile {
                path: path@,
                contents: contents@,
            },
            Hunk::DeleteFile { path } => HunkView::DeleteFile { path: path@ },
            Hunk::UpdateFile { path, move_path, chunks } => HunkView::UpdateFile {
                path: path@,
                move_path: opt_text(move_path),
                chunks: chunk_views(chunks@),
            },
        }
    }
}

/// What a list of files of a patch says.
pub open spec fn hunk_views(v: Seq<Hunk>) -> Seq<HunkView> {
    Seq::new(v.len(), |i: int| v[i]@)
}

/// The path that a hunk leaves: the new one, when it moves the file.
pub open spec fn left_path(h: HunkView) -> Seq<char> {
    match h {
        HunkView::AddFile { path, .. } => path,
        HunkView::DeleteFile { path } => path,
        HunkView::UpdateFile { path, move_path, .. } => match move_path {
            Some(p) => p,
            None => path,
        },
    }
}

impl Hunk {
    /// The path that the hunk leaves: the new one, when it moves the file.
    pub fn path(&self) -> (r: &str)
        ensures
            r@ == left_path(self@),
    {
        match self {
            Hunk::AddFile { path, .. } => path.as_str(),
            Hunk::DeleteFile { path } => path.as_str(),
            Hunk::UpdateFile { path, move_path, .. } => match move_path {
                Some(p) => p.as_str(),
                None => path.as_str(),
            },
        }
    }
}

/// A parsed patch.
#[derive(Debug, PartialEq, Eq)]
pub struct ParsedPatch {
    pub patch: String,
    pub hunks: Vec<Hunk>,
    pub environment_id: Option<String>,
}

/// The rest of a text behind a prefix.
pub open spec fn behind(s: Seq<char>, prefix: Seq<char>) -> Option<Seq<char>> {
    if at(s, prefix, 0) {
        Some(s.skip(prefix.len() as int))
    } else {
        None
    }
}

fn after_prefix(s: &[char], prefix: &str) -> (r: Option<Vec<char>>)
    ensures
        match r {
            Some(v) => behind(s@, prefix@) == Some(v@),
            None => behind(s@, prefix@) is None,
        },
{
    let p: Vec<char> = chars_of(prefix);
    if starts_with(s, p.as_slice()) {
        let rest: Vec<char> = slice_of(s, p.len(), s.len());
        proof {
            assert(rest@ =~= s@.skip(p@.len() as int));
        }
        Some(rest)
    } else {
        None
    }
}

/// A line that opens the hunk of a file.
pub enum Head {
    Add(Seq<char>),
    Delete(Seq<char>),
    Update(Seq<char>),
}

/// The hunk that a line opens.
pub open spec fn head_of(line: Seq<char>) -> Option<Head> {
    let t = trim(line);
    match behind(t, "*** Add File: "@) {
        Some(p) => Some(Head::Add(p)),
        None => match behind(t, "*** Delete File: "@) {
            Some(p) => Some(Head::Delete(p)),
            None => match behind(t, "*** Update File: "@) {
                Some(p) => Some(Head::Update(p)),
                None => None,
            },
        },
    }
}

/// A line that belongs to a change by its first character.
pub open spec fn is_change_line(line: Seq<char>) -> bool {
    line.len() > 0 && (line[0] == ' ' || line[0] == '+' || line[0] == '-')
}

/// Where the added lines that start at `i` end.
pub open spec fn add_end(lines: Seq<Seq<char>>, i: int, end: int) -> int
    decreases end - i,
{
    if i >= end || lines[i].len() == 0 || lines[i][0] != '+' {
        i
    } else {
        add_end(lines, i + 1, end)
    }
}

/// The text of the added lines `i..j`.
pub open spec fn added_text(lines: Seq<Seq<char>>, i: int, j: int) -> Seq<char>
    decreases j - i,
{
    if j <= i {
        Seq::<char>::empty()
    } else {
        added_text(lines, i, j - 1) + lines[j - 1].skip(1) + nl()
    }
}

/// Where the lines of an update that start at `i` end: at the next hunk.
pub open spec fn body_end(lines: Seq<Seq<char>>, i: int, end: int) -> int
    decreases end - i,
{
    if i >= end || (!is_change_line(lines[i]) && head_of(lines[i]) is Some) {
        i
    } else {
        body_end(lines, i + 1, end)
    }
}

/// The changes read so far, and whether the end of the file was marked.
#[verifier::ext_equal]
pub struct Body {
    pub chunks: Seq<ChunkView>,
    pub closed: bool,
}

/// A change that has no lines yet.
pub open spec fn empty_chunk(context: Option<Seq<char>>) -> ChunkView {
    ChunkView {
        context,
        old_lines: Seq::<Seq<char>>::empty(),
        new_lines: Seq::<Seq<char>>::empty(),
        kept: Seq::<(int, int)>::empty(),
        eof: false,
    }
}

/// A change with one more line, by its mark.
pub open spec fn with_line(c: ChunkView, mark: char, text: Seq<char>) -> ChunkView {
    if mark == '+' {
        ChunkView { new_lines: c.new_lines.push(text), ..c }
    } else if mark == '-' {
        ChunkView { old_lines: c.old_lines.push(text), ..c }
    } else {
        ChunkView {
            old_lines: c.old_lines.push(text),
            new_lines: c.new_lines.push(text),
            kept: c.kept.push((c.old_lines.len() as int, c.new_lines.len() as int)),
            ..c
        }
    }
}

/// The message for a line that fits nowhere.
pub open spec fn unexpected(line: Seq<char>) -> Seq<char> {
    "Unexpected line found in update hunk: '"@ + line
        + "'. Every line should start with ' ' (context line), '+' (added line), or '-' (removed line)"@
}

/// The changes after one more line of an update, or what is wrong with the line.
pub open spec fn body_step(b: Body, line: Seq<char>) -> Result<Body, Seq<char>> {
    let started = if b.chunks.len() == 0 {
        seq![empty_chunk(None)]
    } else {
        b.chunks
    };
    let last = b.chunks.last();
    if b.closed {
        if is_blank(line) {
            Ok(b)
        } else {
            Err(unexpected(line))
        }
    } else if trim_end(line) == "@@"@ {
        Ok(Body { chunks: b.chunks.push(empty_chunk(None)), ..b })
    } else if at(line, "@@ "@, 0) {
        Ok(Body { chunks: b.chunks.push(empty_chunk(Some(line.skip(3)))), ..b })
    } else if !is_change_line(line) && trim(line) == "*** End of File"@ {
        if b.chunks.len() == 0 {
            Err("Update hunk does not contain any lines"@)
        } else {
            Ok(
                Body {
                    chunks: b.chunks.drop_last().push(ChunkView { eof: true, ..last }),
                    closed: true,
                },
            )
        }
    } else if line.len() == 0 {
        if b.chunks.len() > 0 && last.old_lines.len() + last.new_lines.len() > 0 {
            Ok(
                Body {
                    chunks: b.chunks.drop_last().push(with_line(last, ' ', Seq::<char>::empty())),
                    ..b
                },
            )
        } else {
            Ok(b)
        }
    } else if is_change_line(line) {
        Ok(
            Body {
                chunks: started.drop_last().push(
                    with_line(started.last(), line[0], line.skip(1)),
                ),
                ..b
            },
        )
    } else {
        Err(unexpected(line))
    }
}

/// The changes of the lines `i..j` of an update, on top of some, or the first line
/// that is wrong and why.
pub open spec fn body_of(lines: Seq<Seq<char>>, i: int, j: int) -> Result<Body, (int, Seq<char>)>
    decreases j - i,
{
    if j <= i {
        Ok(Body { chunks: Seq::<ChunkView>::empty(), closed: false })
    } else {
        match body_of(lines, i, j - 1) {
            Err(e) => Err(e),
            Ok(b) => match body_step(b, lines[j - 1]) {
                Ok(c) => Ok(c),
                Err(m) => Err((j - 1, m)),
            },
        }
    }
}

/// The place that the line after the head of an update moves the file to.
pub open spec fn move_target(lines: Seq<Seq<char>>, i: int, end: int) -> Option<Seq<char>> {
    if i < end {
        behind(trim(lines[i]), "*** Move to: "@)
    } else {
        None
    }
}

/// The hunk that starts at line `i` and the line behind it, or what is wrong.
pub open spec fn hunk_at(lines: Seq<Seq<char>>, i: int, end: int) -> Result<
    (HunkView, int),
    (int, Seq<char>),
> {
    match head_of(lines[i]) {
        None => Err(
            (
                i,
                "'"@ + trim(lines[i])
                    + "' is not a valid hunk header. Valid hunk headers: '*** Add File: {path}', '*** Delete File: {path}', '*** Update File: {path}'"@,
            ),
        ),
        Some(Head::Add(path)) => {
            let j = add_end(lines, i + 1, end);
            if j <= i + 1 {
                Err((i, "Add file hunk for path '"@ + path + "' is empty"@))
            } else {
                Ok((HunkView::AddFile { path, contents: added_text(lines, i + 1, j) }, j))
            }
        },
        Some(Head::Delete(path)) => Ok((HunkView::DeleteFile { path }, i + 1)),
        Some(Head::Update(path)) => {
            let move_path = move_target(lines, i + 1, end);
            let from = if move_path is Some {
                i + 2
            } else {
                i + 1
            };
            let j = body_end(lines, from, end);
            match body_of(lines, from, j) {
                Err(e) => Err(e),
                Ok(b) => Ok((HunkView::UpdateFile { path, move_path, chunks: b.chunks }, j)),
            }
        },
    }
}

/// The hunks of the lines `i..end`, or the first line that is wrong and why. Blank
/// lines between hunks mean nothing.
pub open spec fn hunks_of(lines: Seq<Seq<char>>, i: int, end: int) -> Result<
    Seq<HunkView>,
    (int, Seq<char>),
>
    decreases end - i,
{
    if i >= end {
        Ok(Seq::<HunkView>::empty())
    } else if is_blank(lines[i]) {
        hunks_of(lines, i + 1, end)
    } else {
        match hunk_at(lines, i, end) {
            Err(e) => Err(e),
            Ok((h, j)) => {
                proof {
                    lemma_hunk_takes_lines(lines, i, end);
                }
                match hunks_of(lines, j, end) {
                    Err(e) => Err(e),
                    Ok(rest) => Ok(seq![h] + rest),
                }
            },
        }
    }
}

proof fn lemma_ends_within(lines: Seq<Seq<char>>, i: int, end: int)
    requires
        i <= end,
    ensures
        i <= add_end(lines, i, end) <= end,
        i <= body_end(lines, i, end) <= end,
    decreases end - i,
{
    if i < end {
        lemma_ends_within(lines, i + 1, end);
    }
}

/// A hunk takes at least its first line, and no line beyond the last.
pub proof fn lemma_hunk_takes_lines(lines: Seq<Seq<char>>, i: int, end: int)
    requires
        i < end,
    ensures
        hunk_at(lines, i, end) matches Ok((_, j)) ==> i < j <= end,
{
    lemma_ends_within(lines, i + 1, end);
    if i + 2 <= end {
        lemma_ends_within(lines, i + 2, end);
    }
}

/// A line without the carriage return at its end.
pub open spec fn without_cr(line: Seq<char>) -> Seq<char> {
    if line.len() > 0 && line.last() == '\r' {
        line.drop_last()
    } else {
        line
    }
}

/// The lines of a patch.
pub open spec fn patch_lines(patch: Seq<char>) -> Seq<Seq<char>> {
    let t = trim(patch);
    if t.len() == 0 {
        Seq::<Seq<char>>::empty()
    } else {
        Seq::new(split_nl(t).len(), |i: int| without_cr(split_nl(t)[i]))
    }
}

/// What is wrong with the first and last line of a patch, if anything.
pub open spec fn boundary_error(lines: Seq<Seq<char>>) -> Option<Seq<char>> {
    if lines.len() > 0 && trim(lines[0]) != "*** Begin Patch"@ {
        Some("The first line of the patch must be '*** Begin Patch'"@)
    } else if lines.len() == 0 || trim(lines.last()) != "*** End Patch"@ {
        Some("The last line of the patch must be '*** End Patch'"@)
    } else {
        None
    }
}

/// Whether the lines stand in a here-document.
pub open spec fn in_heredoc(lines: Seq<Seq<char>>) -> bool {
    &&& lines.len() >= 4
    &&& (lines[0] == "<<EOF"@ || lines[0] == "<<'EOF'"@ || lines[0] == "<<\"EOF\""@)
    &&& ends(lines.last(), "EOF"@)
}

/// The lines of the patch proper, or what is wrong with its first and last line.
pub open spec fn bounded_lines(lines: Seq<Seq<char>>) -> Result<Seq<Seq<char>>, Seq<char>> {
    match boundary_error(lines) {
        None => Ok(lines),
        Some(e) => if in_heredoc(lines) {
            let inner = lines.subrange(1, lines.len() - 1);
            match boundary_error(inner) {
                None => Ok(inner),
                Some(e2) => Err(e2),
            }
        } else {
            Err(e)
        },
    }
}

/// The environment that the second line of a patch names.
pub open spec fn environment_of(lines: Seq<Seq<char>>) -> Option<Seq<char>> {
    if lines.len() > 2 {
        behind(trim(lines[1]), "*** Environment ID: "@)
    } else {
        None
    }
}

/// What a text says as a patch: its hunks and its environment, or why it is none.
pub open spec fn parsed(patch: Seq<char>) -> Result<
    (Seq<Seq<char>>, Seq<HunkView>, Option<Seq<char>>),
    ParseErrorView,
> {
    match bounded_lines(patch_lines(patch)) {
        Err(m) => Err(ParseErrorView::InvalidPatchError(m)),
        Ok(lines) => {
            let env = environment_of(lines);
            let from = if env is Some {
                2int
            } else {
                1
            };
            match hunks_of(lines, from, lines.len() - 1) {
                Err((i, m)) => Err(
                    ParseErrorView::InvalidHunkError { message: m, line_number: i + 1 },
                ),
                Ok(hunks) => Ok((lines, hunks, env)),
            }
        },
    }
}

fn is_blank_line(line: &[char]) -> (r: bool)
    ensures
        r == is_blank(line@),
{
    blank(line)
}

fn is_text(line: &[char], text: &str) -> (r: bool)
    ensures
        r == (line@ == text@),
{
    let t: Vec<char> = chars_of(text);
    same(line, t.as_slice())
}

enum HeadLine {
    Add(Vec<char>),
    Delete(Vec<char>),
    Update(Vec<char>),
}

spec fn head_view(h: HeadLine) -> Head {
    match h {
        HeadLine::Add(p) => Head::Add(p@),
        HeadLine::Delete(p) => Head::Delete(p@),
        HeadLine::Update(p) => Head::Update(p@),
    }
}

fn read_head(line: &[char]) -> (r: Option<HeadLine>)
    ensures
        match r {
            Some(h) => head_of(line@) == Some(head_view(h)),
            None => head_of(line@) is None,
        },
{
    let t: Vec<char> = trim_of(line);
    if let Some(p) = after_prefix(t.as_slice(), "*** Add File: ") {
        return Some(HeadLine::Add(p));
    }
    if let Some(p) = after_prefix(t.as_slice(), "*** Delete File: ") {
        return Some(HeadLine::Delete(p));
    }
    if let Some(p) = after_prefix(t.as_slice(), "*** Update File: ") {
        return Some(HeadLine::Update(p));
    }
    None
}

fn change_line(line: &[char]) -> (r: bool)
    ensures
        r == is_change_line(line@),
{
    line.len() > 0 && (line[0] == ' ' || line[0] == '+' || line[0] == '-')
}

fn new_chunk(context: Option<String>) -> (c: UpdateFileChunk)
    ensures
        c@ == empty_chunk(opt_text(context)),
{
    let c: UpdateFileChunk = UpdateFileChunk {
        change_context: context,
        old_lines: Vec::new(),
        new_lines: Vec::new(),
        context_line_indices: Vec::new(),
        is_end_of_file: false,
    };
    proof {
        assert(c@ =~= empty_chunk(opt_text(context)));
    }
    c
}

impl UpdateFileChunk {
    /// Adds a line that stays, and remembers where it stands on either side.
    pub fn push_context_line(&mut self, line: String)
        ensures
            final(self)@ == with_line(old(self)@, ' ', line@),
    {
        let ghost before = self@;
        let copy: String = line.clone();
        self.context_line_indices.push((self.old_lines.len(), self.new_lines.len()));
        self.old_lines.push(copy);
        self.new_lines.push(line);
        proof {
            assert(self@ =~= with_line(before, ' ', line@));
        }
    }

    fn push_line(&mut self, mark: char, line: String)
        requires
            mark == ' ' || mark == '+' || mark == '-',
        ensures
            final(self)@ == with_line(old(self)@, mark, line@),
    {
        let ghost before = self@;
        if mark == '+' {
            self.new_lines.push(line);
            proof {
                assert(self@ =~= with_line(before, mark, line@));
            }
        } else if mark == '-' {
            self.old_lines.push(line);
            proof {
                assert(self@ =~= with_line(before, mark, line@));
            }
        } else {
            self.push_context_line(line);
        }
    }
}

fn unexpected_line(line: &[char]) -> (out: String)
    ensures
        out@ == unexpected(line@),
{
    let mut out: String = "Unexpected line found in update hunk: '".to_owned();
    out.append(string_of(line).as_str());
    out.append(
        "'. Every line should start with ' ' (context line), '+' (added line), or '-' (removed line)",
    );
    out
}

fn put_line(chunks: &mut Vec<UpdateFileChunk>, mark: char, text: String)
    requires
        mark == ' ' || mark == '+' || mark == '-',
        old(chunks)@.len() > 0,
    ensures
        chunk_views(final(chunks)@) == chunk_views(old(chunks)@).drop_last().push(
            with_line(chunk_views(old(chunks)@).last(), mark, text@),
        ),
{
    let ghost before = chunk_views(chunks@);
    let ghost b = chunks@;
    if let Some(mut last) = chunks.pop() {
        proof {
            assert(before.last() == last@);
        }
        last.push_line(mark, text);
        let ghost l = last@;
        chunks.push(last);
        proof {
            assert(chunk_views(chunks@) =~= before.drop_last().push(l));
        }
    }
}

/// Reads one line of an update.
fn read_body_line(chunks: &mut Vec<UpdateFileChunk>, closed: bool, line: &[char]) -> (r: Result<
    bool,
    String,
>)
    ensures
        match r {
            Ok(c) => body_step(Body { chunks: chunk_views(old(chunks)@), closed }, line@) == Ok::<
                Body,
                Seq<char>,
            >(Body { chunks: chunk_views(final(chunks)@), closed: c }),
            Err(m) => body_step(Body { chunks: chunk_views(old(chunks)@), closed }, line@) == Err::<
                Body,
                Seq<char>,
            >(m@),
        },
{
    let ghost before = chunk_views(chunks@);
    if closed {
        if is_blank_line(line) {
            return Ok(true);
        }
        return Err(unexpected_line(line));
    }
    let t: Vec<char> = trim_end_of(line);
    if is_text(t.as_slice(), "@@") {
        chunks.push(new_chunk(None));
        proof {
            assert(chunk_views(chunks@) =~= before.push(empty_chunk(None)));
        }
        return Ok(false);
    }
    if let Some(rest) = after_prefix(line, "@@ ") {
        proof {
            reveal_strlit("@@ ");
            assert("@@ "@.len() == 3);
        }
        let context: String = string_of(rest.as_slice());
        chunks.push(new_chunk(Some(context)));
        proof {
            assert(chunk_views(chunks@) =~= before.push(empty_chunk(Some(line@.skip(3)))));
        }
        return Ok(false);
    }
    let n: usize = chunks.len();
    if change_line(line) {
        if n == 0 {
            chunks.push(new_chunk(None));
            proof {
                assert(chunk_views(chunks@) =~= seq![empty_chunk(None)]);
            }
        }
        let rest: Vec<char> = slice_of(line, 1, line.len());
        proof {
            assert(rest@ =~= line@.skip(1));
        }
        put_line(chunks, line[0], string_of(rest.as_slice()));
        return Ok(false);
    }
    let whole: Vec<char> = trim_of(line);
    if is_text(whole.as_slice(), "*** End of File") {
        if n == 0 {
            return Err("Update hunk does not contain any lines".to_owned());
        }
        if let Some(mut last) = chunks.pop() {
            proof {
                assert(before.last() == last@);
            }
            let ghost l = last@;
            last.is_end_of_file = true;
            proof {
                assert(last@ =~= ChunkView { eof: true, ..l });
            }
            let ghost m = last@;
            chunks.push(last);
            proof {
                assert(chunk_views(chunks@) =~= before.drop_last().push(m));
            }
        }
        return Ok(true);
    }
    if line.len() == 0 {
        if n > 0 {
            proof {
                assert(before.last() == chunks@[n - 1]@);
            }
            if chunks[n - 1].old_lines.len() > 0 || chunks[n - 1].new_lines.len() > 0 {
                let empty: String = String::new();
                proof {
                    assert(empty@ =~= Seq::<char>::empty());
                }
                put_line(chunks, ' ', empty);
            }
        }
        return Ok(false);
    }
    Err(unexpected_line(line))
}

proof fn lemma_body_error_stays(lines: Seq<Seq<char>>, i: int, a: int, b: int)
    requires
        i <= a <= b,
        body_of(lines, i, a) is Err,
    ensures
        body_of(lines, i, b) == body_of(lines, i, a),
    decreases b - a,
{
    if a < b {
        lemma_body_error_stays(lines, i, a, b - 1);
        if b <= i {
            assert(body_of(lines, i, a) is Ok);
        }
    }
}

/// Reads the lines of an update.
fn read_body(lines: &[Vec<char>], from: usize, to: usize) -> (r: Result<
    Vec<UpdateFileChunk>,
    (usize, String),
>)
    requires
        from <= to <= lines@.len(),
    ensures
        match r {
            Ok(v) => body_of(views(lines@), from as int, to as int) is Ok && body_of(
                views(lines@),
                from as int,
                to as int,
            )->Ok_0.chunks == chunk_views(v@),
            Err(e) => body_of(views(lines@), from as int, to as int) == Err::<
                Body,
                (int, Seq<char>),
            >((e.0 as int, e.1@)) && from <= e.0 < to,
        },
{
    let ghost v = views(lines@);
    let mut chunks: Vec<UpdateFileChunk> = Vec::new();
    let mut closed: bool = false;
    let mut i: usize = from;
    proof {
        assert(chunk_views(chunks@) =~= Seq::<ChunkView>::empty());
    }
    while i < to
        invariant
            from <= i <= to <= lines@.len(),
            v == views(lines@),
            body_of(v, from as int, i as int) == Ok::<Body, (int, Seq<char>)>(
                Body { chunks: chunk_views(chunks@), closed },
            ),
        decreases to - i,
    {
        proof {
            assert(v[i as int] == lines@[i as int]@);
        }
        match read_body_line(&mut chunks, closed, lines[i].as_slice()) {
            Ok(c) => {
                closed = c;
            },
            Err(m) => {
                proof {
                    assert(body_of(v, from as int, i + 1) == Err::<Body, (int, Seq<char>)>(
                        (i as int, m@),
                    ));
                    lemma_body_error_stays(v, from as int, i + 1, to as int);
                }
                return Err((i, m));
            },
        }
        i = i + 1;
    }
    Ok(chunks)
}

fn find_body_end(lines: &[Vec<char>], from: usize, end: usize) -> (j: usize)
    requires
        from <= end <= lines@.len(),
    ensures
        j == body_end(views(lines@), from as int, end as int),
        from <= j <= end,
{
    let ghost v = views(lines@);
    let mut j: usize = from;
    while j < end
        invariant
            from <= j <= end <= lines@.len(),
            v == views(lines@),
            body_end(v, from as int, end as int) == body_end(v, j as int, end as int),
        decreases end - j,
    {
        proof {
            assert(v[j as int] == lines@[j as int]@);
        }
        if !change_line(lines[j].as_slice()) && read_head(lines[j].as_slice()).is_some() {
            return j;
        }
        j = j + 1;
    }
    j
}

fn read_added(lines: &[Vec<char>], from: usize, end: usize) -> (r: (Vec<char>, usize))
    requires
        from <= end <= lines@.len(),
    ensures
        r.1 == add_end(views(lines@), from as int, end as int),
        from <= r.1 <= end,
        r.0@ == added_text(views(lines@), from as int, r.1 as int),
{
    let ghost v = views(lines@);
    let mut out: Vec<char> = Vec::new();
    let newline: Vec<char> = vec!['\n'];
    proof {
        assert(newline@ =~= nl());
    }
    let mut j: usize = from;
    while j < end
        invariant
            from <= j <= end <= lines@.len(),
            v == views(lines@),
            newline@ == nl(),
            add_end(v, from as int, end as int) == add_end(v, j as int, end as int),
            out@ == added_text(v, from as int, j as int),
        decreases end - j,
    {
        proof {
            assert(v[j as int] == lines@[j as int]@);
        }
        let n: usize = lines[j].len();
        if n == 0 || lines[j][0] != '+' {
            return (out, j);
        }
        let rest: Vec<char> = slice_of(lines[j].as_slice(), 1, n);
        let ghost before = out@;
        extend(&mut out, rest.as_slice());
        extend(&mut out, newline.as_slice());
        proof {
            assert(rest@ =~= v[j as int].skip(1));
            assert(out@ =~= added_text(v, from as int, j + 1));
        }
        j = j + 1;
    }
    (out, j)
}

/// Reads the hunk that starts at a line.
fn read_hunk(lines: &[Vec<char>], i: usize, end: usize) -> (r: Result<(Hunk, usize), (usize, String)>)
    requires
        i < end < lines@.len(),
    ensures
        match r {
            Ok(p) => hunk_at(views(lines@), i as int, end as int) == Ok::<
                (HunkView, int),
                (int, Seq<char>),
            >((p.0@, p.1 as int)) && i < p.1 <= end,
            Err(e) => hunk_at(views(lines@), i as int, end as int) == Err::<
                (HunkView, int),
                (int, Seq<char>),
            >((e.0 as int, e.1@)) && e.0 < end,
        },
{
    let ghost v = views(lines@);
    proof {
        assert(v[i as int] == lines@[i as int]@);
    }
    match read_head(lines[i].as_slice()) {
        None => {
            let t: Vec<char> = trim_of(lines[i].as_slice());
            let mut message: String = "'".to_owned();
            message.append(string_of(t.as_slice()).as_str());
            message.append(
                "' is not a valid hunk header. Valid hunk headers: '*** Add File: {path}', '*** Delete File: {path}', '*** Update File: {path}'",
            );
            Err((i, message))
        },
        Some(HeadLine::Add(path)) => {
            let (contents, j): (Vec<char>, usize) = read_added(lines, i + 1, end);
            if j <= i + 1 {
                let mut message: String = "Add file hunk for path '".to_owned();
                message.append(string_of(path.as_slice()).as_str());
                message.append("' is empty");
                return Err((i, message));
            }
            Ok(
                (
                    Hunk::AddFile {
                        path: string_of(path.as_slice()),
                        contents: string_of(contents.as_slice()),
                    },
                    j,
                ),
            )
        },
        Some(HeadLine::Delete(path)) => Ok(
            (Hunk::DeleteFile { path: string_of(path.as_slice()) }, i + 1),
        ),
        Some(HeadLine::Update(path)) => {
            let mut from: usize = i + 1;
            let mut move_path: Option<String> = None;
            if from < end {
                proof {
                    assert(v[from as int] == lines@[from as int]@);
                }
                let t: Vec<char> = trim_of(lines[from].as_slice());
                if let Some(p) = after_prefix(t.as_slice(), "*** Move to: ") {
                    move_path = Some(string_of(p.as_slice()));
                    from = from + 1;
                }
            }
            let j: usize = find_body_end(lines, from, end);
            match read_body(lines, from, j) {
                Err(e) => Err(e),
                Ok(chunks) => Ok(
                    (
                        Hunk::UpdateFile { path: string_of(path.as_slice()), move_path, chunks },
                        j,
                    ),
                ),
            }
        },
    }
}

/// Reads all hunks.
fn read_hunks(lines: &[Vec<char>], from: usize, end: usize) -> (r: Result<
    Vec<Hunk>,
    (usize, String),
>)
    requires
        from <= end < lines@.len(),
    ensures
        match r {
            Ok(h) => hunks_of(views(lines@), from as int, end as int) == Ok::<
                Seq<HunkView>,
                (int, Seq<char>),
            >(hunk_views(h@)),
            Err(e) => hunks_of(views(lines@), from as int, end as int) == Err::<
                Seq<HunkView>,
                (int, Seq<char>),
            >((e.0 as int, e.1@)) && e.0 < end,
        },
{
    let ghost v = views(lines@);
    let mut hunks: Vec<Hunk> = Vec::new();
    let mut i: usize = from;
    proof {
        match hunks_of(v, from as int, end as int) {
            Ok(rest) => {
                assert(hunk_views(hunks@) + rest =~= rest);
            },
            Err(_) => {},
        }
    }
    while i < end
        invariant
            from <= i <= end < lines@.len(),
            v == views(lines@),
            match hunks_of(v, i as int, end as int) {
                Ok(rest) => hunks_of(v, from as int, end as int) == Ok::<
                    Seq<HunkView>,
                    (int, Seq<char>),
                >(hunk_views(hunks@) + rest),
                Err(e) => hunks_of(v, from as int, end as int) == Err::<
                    Seq<HunkView>,
                    (int, Seq<char>),
                >(e),
            },
        decreases end - i,
    {
        proof {
            assert(v[i as int] == lines@[i as int]@);
        }
        if is_blank_line(lines[i].as_slice()) {
            i = i + 1;
        } else {
            match read_hunk(lines, i, end) {
                Err(e) => {
                    return Err(e);
                },
                Ok((h, j)) => {
                    let ghost before = hunk_views(hunks@);
                    let ghost hv = h@;
                    hunks.push(h);
                    proof {
                        assert(hunk_views(hunks@) =~= before.push(hv));
                        match hunks_of(v, j as int, end as int) {
                            Ok(rest) => {
                                assert(before + (seq![hv] + rest) =~= before.push(hv) + rest);
                            },
                            Err(_) => {},
                        }
                    }
                    i = j;
                },
            }
        }
    }
    proof {
        assert(hunk_views(hunks@) + Seq::<HunkView>::empty() =~= hunk_views(hunks@));
    }
    Ok(hunks)
}

fn read_lines(patch: &str) -> (lines: Vec<Vec<char>>)
    ensures
        views(lines@) == patch_lines(patch@),
{
    let c: Vec<char> = chars_of(patch);
    let t: Vec<char> = trim_of(c.as_slice());
    let mut out: Vec<Vec<char>> = Vec::new();
    if t.len() == 0 {
        proof {
            assert(views(out@) =~= Seq::<Seq<char>>::empty());
        }
        return out;
    }
    let raw: Vec<Vec<char>> = split_lines(t.as_slice());
    let ghost spec = patch_lines(patch@);
    let mut i: usize = 0;
    while i < raw.len()
        invariant
            i <= raw@.len(),
            spec.len() == raw@.len(),
            spec == Seq::new(views(raw@).len(), |i: int| without_cr(views(raw@)[i])),
            out@.len() == i,
            forall|k: int| 0 <= k < i ==> #[trigger] out@[k]@ == spec[k],
        decreases raw@.len() - i,
    {
        let n: usize = raw[i].len();
        let k: usize = if n > 0 && raw[i][n - 1] == '\r' {
            n - 1
        } else {
            n
        };
        let line: Vec<char> = slice_of(raw[i].as_slice(), 0, k);
        proof {
            assert(views(raw@)[i as int] == raw@[i as int]@);
            assert(line@ =~= spec[i as int]);
        }
        out.push(line);
        i = i + 1;
    }
    proof {
        assert(views(out@) =~= spec);
    }
    out
}

/// Checks the first and last line of a patch.
fn check_start_and_end_lines_strict(lines: &[Vec<char>]) -> (r: Option<&'static str>)
    ensures
        match r {
            Some(m) => boundary_error(views(lines@)) == Some(m@),
            None => boundary_error(views(lines@)) is None,
        },
{
    let n: usize = lines.len();
    let ghost v = views(lines@);
    if n > 0 {
        proof {
            assert(v[0] == lines@[0]@);
            assert(v.last() == lines@[n - 1]@);
        }
        let first: Vec<char> = trim_of(lines[0].as_slice());
        if !is_text(first.as_slice(), "*** Begin Patch") {
            return Some("The first line of the patch must be '*** Begin Patch'");
        }
        let last: Vec<char> = trim_of(lines[n - 1].as_slice());
        if is_text(last.as_slice(), "*** End Patch") {
            return None;
        }
    }
    Some("The last line of the patch must be '*** End Patch'")
}

/// Finds the lines of the patch proper, in a here-document or not.
fn check_patch_boundaries_lenient(lines: Vec<Vec<char>>) -> (r: Result<Vec<Vec<char>>, &'static str>)
    ensures
        match r {
            Ok(v) => bounded_lines(views(lines@)) == Ok::<Seq<Seq<char>>, Seq<char>>(views(v@)),
            Err(m) => bounded_lines(views(lines@)) == Err::<Seq<Seq<char>>, Seq<char>>(m@),
        },
{
    let ghost v = views(lines@);
    let e: &str = match check_start_and_end_lines_strict(lines.as_slice()) {
        None => {
            return Ok(lines);
        },
        Some(e) => e,
    };
    let n: usize = lines.len();
    if n < 4 {
        return Err(e);
    }
    proof {
        assert(v[0] == lines@[0]@);
        assert(v.last() == lines@[n - 1]@);
    }
    let opener: bool = is_text(lines[0].as_slice(), "<<EOF") || is_text(
        lines[0].as_slice(),
        "<<'EOF'",
    ) || is_text(lines[0].as_slice(), "<<\"EOF\"");
    let eof: Vec<char> = chars_of("EOF");
    if !opener || !ends_with(lines[n - 1].as_slice(), eof.as_slice()) {
        return Err(e);
    }
    let mut inner: Vec<Vec<char>> = lines;
    let last: Option<Vec<char>> = inner.pop();
    let first: Vec<char> = inner.remove(0);
    proof {
        assert(views(inner@) =~= v.subrange(1, v.len() - 1));
    }
    match check_start_and_end_lines_strict(inner.as_slice()) {
        None => Ok(inner),
        Some(e2) => Err(e2),
    }
}

/// A parsed patch, or why the text is none.
pub open spec fn parse_result(r: Result<ParsedPatch, ParseError>) -> Result<
    (Seq<char>, Seq<HunkView>, Option<Seq<char>>),
    ParseErrorView,
> {
    match r {
        Ok(p) => Ok((p.patch@, hunk_views(p.hunks@), opt_text(p.environment_id))),
        Err(e) => Err(e@),
    }
}

/// Parses a patch.
pub fn parse_patch(patch: &str) -> (r: Result<ParsedPatch, ParseError>)
    ensures
        parse_result(r) == (match parsed(patch@) {
            Ok((lines, hunks, env)) => Ok((join(lines, nl()), hunks, env)),
            Err(e) => Err(e),
        }),
{
    let all: Vec<Vec<char>> = read_lines(patch);
    let lines: Vec<Vec<char>> = match check_patch_boundaries_lenient(all) {
        Ok(l) => l,
        Err(m) => {
            return Err(ParseError::InvalidPatchError(m.to_owned()));
        },
    };
    let ghost v = views(lines@);
    let n: usize = lines.len();
    proof {
        assert(boundary_error(v) is None);
        lemma_bounded(patch_lines(patch@));
    }
    let mut environment_id: Option<String> = None;
    let mut from: usize = 1;
    if n > 2 {
        proof {
            assert(v[1] == lines@[1]@);
        }
        let t: Vec<char> = trim_of(lines[1].as_slice());
        if let Some(id) = after_prefix(t.as_slice(), "*** Environment ID: ") {
            environment_id = Some(string_of(id.as_slice()));
            from = 2;
        }
    }
    match read_hunks(lines.as_slice(), from, n - 1) {
        Err((i, message)) => Err(ParseError::InvalidHunkError { message, line_number: i + 1 }),
        Ok(hunks) => {
            let newline: Vec<char> = vec!['\n'];
            proof {
                assert(newline@ =~= nl());
            }
            let text: Vec<char> = join_parts(lines.as_slice(), newline.as_slice());
            Ok(ParsedPatch { patch: string_of(text.as_slice()), hunks, environment_id })
        },
    }
}

proof fn lemma_bounded(lines: Seq<Seq<char>>)
    requires
        bounded_lines(lines) is Ok,
    ensures
        bounded_lines(lines)->Ok_0.len() >= 2,
{
    let l = bounded_lines(lines)->Ok_0;
    assert(boundary_error(l) is None);
    if l.len() == 1 {
        reveal_strlit("*** Begin Patch");
        reveal_strlit("*** End Patch");
        assert("*** Begin Patch"@.len() != "*** End Patch"@.len());
    }
}

} // verus!
