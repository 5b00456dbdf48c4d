//! Reading through the editor: a whole file, a range of lines, or the lines around
//! an anchor.

use vstd::prelude::*;

use crate::edit::candidate::{cand_views, Candidate, CandidateView};
use crate::edit::locate::{
    anchor_place, locate_anchor, ErrorView, LocateError, Located, LocatedView,
};
use crate::edit::render::{candidates_lines, capped, render_candidates, truncate_content};
use crate::edit::view::FileView;
use crate::file_shared::{
    content_hash, hash_of, lf_view, normalize_newlines, CONTENT_CAP, READ_MAX_CHARS, READ_MAX_CONTEXT,
    READ_MAX_LINES,
};
use crate::format::{byte_len, byte_length, dec, decimal_size};
use crate::json::{member, str_at, u64_at, Json};
use crate::lines::split_nl;
use crate::numbered::{cost, cost_capped, count_split, line_count, list_lines, listing};
use crate::refusal::{plain_refusal, refuse, Refusal, RefusalView};
use crate::text::string_of;

verus! {

/// What reading a file gave.
#[derive(Debug, PartialEq, Eq)]
pub enum FileRead {
    Text(String),
    Missing,
    NotUtf8,
    /// Any other failure, with its message.
    Failed(String),
}

/// Which part of a file is asked for.
#[derive(Debug, PartialEq, Eq)]
pub enum ReadRequest {
    Whole,
    /// First and last line, 1-based.
    Range { start: Option<usize>, end: Option<usize> },
    /// The lines around an anchor.
    Anchored { anchor: String, before: usize, after: usize },
}

/// What a request asks for.
#[verifier::ext_equal]
pub enum RequestView {
    Whole,
    Range { start: Option<usize>, end: Option<usize> },
    Anchored { anchor: Seq<char>, before: usize, after: usize },
}

impl View for ReadRequest {
    type V = RequestView;

    open spec fn view(&self) -> RequestView {
        match *self {
            ReadRequest::Whole => RequestView::Whole,
            ReadRequest::Range { start, end } => RequestView::Range { start, end },
            ReadRequest::Anchored { anchor, before, after } => RequestView::Anchored {
                anchor: anchor@,
                before,
                after,
            },
        }
    }
}

/// What a read answers.
#[derive(Debug, PartialEq, Eq)]
pub struct ReadReply {
    pub text: String,
    pub hash: String,
    pub total_lines: usize,
    pub truncated: bool,
    /// First and last line shown, 1-based, unless the whole file is.
    pub shown: Option<(usize, usize)>,
    /// Where the anchor was found.
    pub found: Option<Found>,
}

/// Where an anchor was found.
#[derive(Debug, PartialEq, Eq)]
pub struct Found {
    pub anchor_line: usize,
    pub anchor_lines: usize,
    pub tier: u8,
    pub score: u64,
    pub note: String,
}

/// What a reply says.
#[verifier::ext_equal]
pub struct ReplyView {
    pub text: Seq<char>,
    pub hash: Seq<char>,
    pub total_lines: int,
    pub truncated: bool,
    pub shown: Option<(int, int)>,
    pub found: Option<FoundView>,
}

/// What is said of an anchor.
#[verifier::ext_equal]
pub struct FoundView {
    pub anchor_line: int,
    pub anchor_lines: int,
    pub tier: int,
    pub score: nat,
    pub note: Seq<char>,
}

impl View for Found {
    type V = FoundView;

    open spec fn view(&self) -> FoundView {
        FoundView {
            anchor_line: self.anchor_line as int,
            anchor_lines: self.anchor_lines as int,
            tier: self.tier as int,
            score: self.score as nat,
            note: self.note@,
        }
    }
}

impl View for ReadReply {
    type V = ReplyView;

    open spec fn view(&self) -> ReplyView {
        ReplyView {
            text: self.text@,
            hash: self.hash@,
            total_lines: self.total_lines as int,
            truncated: self.truncated,
            shown: match self.shown {
                Some(p) => Some((p.0 as int, p.1 as int)),
                None => None,
            },
            found: match self.found {
                Some(f) => Some(f@),
                None => None,
            },
        }
    }
}

/// A line number of a request.
pub open spec fn line_at(args: Json, key: Seq<char>) -> Option<usize> {
    match u64_at(args, key) {
        Some(n) => Some(n as usize),
        None => None,
    }
}

/// The anchor of a request; an empty one counts as none.
pub open spec fn anchor_at(args: Json) -> Option<Seq<char>> {
    match str_at(args, "anchor"@) {
        Some(s) => if s.len() == 0 {
            None
        } else {
            Some(s)
        },
        None => None,
    }
}

/// The context size of a request: ten lines unless it says otherwise.
pub open spec fn context_size(args: Json, key: Seq<char>) -> usize {
    match u64_at(args, key) {
        Some(n) => n as usize,
        None => 10,
    }
}

/// What a read call asks for, or why it is refused.
pub open spec fn request_of(args: Json) -> Result<RequestView, RefusalView> {
    let start = line_at(args, "start_line"@);
    let end = line_at(args, "end_line"@);
    let anchor = anchor_at(args);
    let has_context = member(args, "context_before"@) is Some || member(args, "context_after"@) is Some;
    let before = context_size(args, "context_before"@);
    let after = context_size(args, "context_after"@);
    let has_range = start is Some || end is Some;
    if has_range && (anchor is Some || has_context) {
        Err(
            plain_refusal(
                "PARSE_ERROR"@,
                "edit: start_line/end_line and anchor are mutually exclusive"@,
                None,
            ),
        )
    } else if anchor is None && has_context {
        Err(
            plain_refusal(
                "PARSE_ERROR"@,
                "edit: context_before/context_after require 'anchor'"@,
                None,
            ),
        )
    } else if start == Some(0usize) || end == Some(0usize) {
        Err(plain_refusal("PARSE_ERROR"@, "edit: read line numbers start at 1"@, None))
    } else if start is Some && end is Some && end->0 < start->0 {
        Err(plain_refusal("PARSE_ERROR"@, "edit: end_line must be >= start_line"@, None))
    } else if start is Some && end is Some && end->0 - start->0 + 1 > READ_MAX_LINES {
        Err(
            plain_refusal(
                "RANGE_TOO_LARGE"@,
                "edit: requested range exceeds "@ + dec(READ_MAX_LINES as nat) + " lines"@,
                Some("Use smaller contiguous ranges."@),
            ),
        )
    } else if anchor is Some && (before > READ_MAX_CONTEXT || after > READ_MAX_CONTEXT) {
        Err(
            plain_refusal(
                "PARSE_ERROR"@,
                "edit: context window per side exceeds "@ + dec(READ_MAX_CONTEXT as nat) + " lines"@,
                None,
            ),
        )
    } else if has_range {
        Ok(RequestView::Range { start, end })
    } else {
        match anchor {
            Some(a) => Ok(RequestView::Anchored { anchor: a, before, after }),
            None => Ok(RequestView::Whole),
        }
    }
}

fn size_at(args: &Json, key: &str) -> (r: Option<usize>)
    ensures
        r == line_at(*args, key@),
{
    match args.get_u64(key) {
        Some(n) => Some(n as usize),
        None => None,
    }
}

/// Reads what a call without hunks asks for.
pub fn read_request(args: &Json) -> (r: Result<ReadRequest, Refusal>)
    ensures
        match r {
            Ok(q) => request_of(*args) == Ok::<RequestView, RefusalView>(q@),
            Err(e) => request_of(*args) == Err::<RequestView, RefusalView>(e@),
        },
{
    let start: Option<usize> = size_at(args, "start_line");
    let end: Option<usize> = size_at(args, "end_line");
    let anchor: Option<&str> = match args.get_str("anchor") {
        Some(s) => if s.is_empty() {
            None
        } else {
            Some(s)
        },
        None => None,
    };
    let has_context: bool = args.get("context_before").is_some() || args.get(
        "context_after",
    ).is_some();
    let before: usize = match size_at(args, "context_before") {
        Some(n) => n,
        None => 10,
    };
    let after: usize = match size_at(args, "context_after") {
        Some(n) => n,
        None => 10,
    };
    let has_range: bool = start.is_some() || end.is_some();
    if has_range && (anchor.is_some() || has_context) {
        return Err(
            refuse(
                "PARSE_ERROR",
                "edit: start_line/end_line and anchor are mutually exclusive".to_owned(),
                None,
            ),
        );
    }
    if anchor.is_none() && has_context {
        return Err(
            refuse(
                "PARSE_ERROR",
                "edit: context_before/context_after require 'anchor'".to_owned(),
                None,
            ),
        );
    }
    let zero_start: bool = match start {
        Some(n) => n == 0,
        None => false,
    };
    let zero_end: bool = match end {
        Some(n) => n == 0,
        None => false,
    };
    if zero_start || zero_end {
        return Err(
            refuse("PARSE_ERROR", "edit: read line numbers start at 1".to_owned(), None),
        );
    }
    if let (Some(s), Some(e)) = (start, end) {
        if e < s {
            return Err(
                refuse("PARSE_ERROR", "edit: end_line must be >= start_line".to_owned(), None),
            );
        }
        if e - s >= READ_MAX_LINES {
            let mut message: String = "edit: requested range exceeds ".to_owned();
            message.append(decimal_size(READ_MAX_LINES).as_str());
            message.append(" lines");
            return Err(refuse("RANGE_TOO_LARGE", message, Some("Use smaller contiguous ranges.")));
        }
    }
    if anchor.is_some() && (before > READ_MAX_CONTEXT || after > READ_MAX_CONTEXT) {
        let mut message: String = "edit: context window per side exceeds ".to_owned();
        message.append(decimal_size(READ_MAX_CONTEXT).as_str());
        message.append(" lines");
        return Err(refuse("PARSE_ERROR", message, None));
    }
    if has_range {
        return Ok(ReadRequest::Range { start, end });
    }
    match anchor {
        Some(a) => Ok(ReadRequest::Anchored { anchor: a.to_owned(), before, after }),
        None => Ok(ReadRequest::Whole),
    }
}

/// The answer to a read of the lines `first..last` of a text.
pub open spec fn shown_lines(
    content: Seq<char>,
    first: int,
    last: int,
    found: Option<FoundView>,
) -> ReplyView {
    ReplyView {
        text: listing(split_nl(content), first, last),
        hash: hash_of(content),
        total_lines: line_count(content) as int,
        truncated: false,
        shown: Some((first + 1, last)),
        found,
    }
}

/// The answer to a read of a range of lines.
pub open spec fn range_reply(
    content: Seq<char>,
    path: Seq<char>,
    start: Option<usize>,
    end: Option<usize>,
) -> Result<ReplyView, RefusalView> {
    let total = line_count(content) as int;
    let first = match start {
        Some(s) => if s == 0 { 0 } else { s - 1 },
        None => 0,
    };
    let last = match end {
        Some(e) => e as int,
        None => total,
    };
    let what = "requested lines are outside '"@ + path + "' ("@ + dec(total as nat) + " total lines)"@;
    if first > total || last > total {
        Err(
            RefusalView {
                code: "LINE_OUT_OF_RANGE"@,
                text: "edit: "@ + what,
                message: what,
                retryable: false,
                hint: Some("Use the total_lines value and retry."@),
                hash: Some(hash_of(content)),
                total_lines: Some(total as usize),
                candidates: None,
            },
        )
    } else if cost(split_nl(content), first, last) > READ_MAX_CHARS {
        Err(
            plain_refusal(
                "RANGE_TOO_LARGE"@,
                "edit: requested range exceeds the model output budget"@,
                Some("Split the range into smaller contiguous reads."@),
            ),
        )
    } else {
        Ok(shown_lines(content, first, last, None))
    }
}

/// A read as its view.
pub open spec fn reply_result(r: Result<ReadReply, Refusal>) -> Result<ReplyView, RefusalView> {
    match r {
        Ok(x) => Ok(x@),
        Err(e) => Err(e@),
    }
}

/// Answers a read of a range of lines.
pub fn read_range(content: &str, raw_path: &str, start: Option<usize>, end: Option<usize>) -> (r:
    Result<ReadReply, Refusal>)
    requires
        start is Some && end is Some ==> start->0 <= end->0,
    ensures
        reply_result(r) == range_reply(content@, raw_path@, start, end),
{
    let view: FileView = FileView::new(content);
    let total: usize = count_split(view.lines.as_slice());
    let hash: String = content_hash(content);
    let first: usize = match start {
        Some(s) => if s == 0 {
            0
        } else {
            s - 1
        },
        None => 0,
    };
    let last: usize = match end {
        Some(e) => e,
        None => total,
    };
    if first > total || last > total {
        let mut what: String = "requested lines are outside '".to_owned();
        what.append(raw_path);
        what.append("' (");
        what.append(decimal_size(total).as_str());
        what.append(" total lines)");
        let mut text: String = "edit: ".to_owned();
        text.append(what.as_str());
        return Err(
            Refusal {
                code: "LINE_OUT_OF_RANGE".to_owned(),
                text,
                message: what,
                retryable: false,
                hint: Some("Use the total_lines value and retry.".to_owned()),
                hash: Some(hash),
                total_lines: Some(total),
                candidates: None,
            },
        );
    }
    if cost_capped(view.lines.as_slice(), first, last, READ_MAX_CHARS) > READ_MAX_CHARS as u128 {
        return Err(
            refuse(
                "RANGE_TOO_LARGE",
                "edit: requested range exceeds the model output budget".to_owned(),
                Some("Split the range into smaller contiguous reads."),
            ),
        );
    }
    let body: Vec<char> = list_lines(view.lines.as_slice(), first, last);
    Ok(
        ReadReply {
            text: string_of(body.as_slice()),
            hash,
            total_lines: total,
            truncated: false,
            shown: Some((first + 1, last)),
            found: None,
        },
    )
}

/// The refusal of a read whose anchor could not be placed.
pub open spec fn anchor_refusal(
    path: Seq<char>,
    code: Seq<char>,
    detail: Seq<char>,
    cands: Seq<CandidateView>,
    hint: Seq<char>,
    hash: Seq<char>,
) -> RefusalView {
    RefusalView {
        code,
        text: "[ERROR] edit "@ + path + "\n  "@ + code + ": "@ + detail + "\n"@ + candidates_lines(
            cands,
            cands.len() as int,
        ),
        message: detail,
        retryable: true,
        hint: Some(hint),
        hash: Some(hash),
        total_lines: None,
        candidates: Some(cands),
    }
}

/// The lines shown around an anchor: `before` and `after` more lines, as far as the
/// file has them.
pub open spec fn around(l: LocatedView, total: int, before: int, after: int) -> (int, int) {
    let w = if l.win_lines >= 1 { l.win_lines } else { 1 };
    let s = l.start_line;
    let room = if total >= s + w { total - (s + w) } else { 0 };
    let more = if after <= room { after } else { room };
    let end = s + w + more;
    (if before <= s { s - before } else { 0 }, if end <= total { end } else { total })
}

/// The answer to a read around an anchor.
pub open spec fn anchored_reply(
    content: Seq<char>,
    path: Seq<char>,
    anchor: Seq<char>,
    before: int,
    after: int,
) -> Result<ReplyView, RefusalView> {
    let total = line_count(content) as int;
    match anchor_place(content, anchor) {
        Err(ErrorView::Ambiguous { candidates, detail }) => Err(
            anchor_refusal(
                path,
                "ANCHOR_AMBIGUOUS"@,
                detail,
                candidates,
                "Add context_before/context_after to narrow the window, or read by line range (start_line/end_line)."@,
                hash_of(content),
            ),
        ),
        Err(ErrorView::NoMatch { candidates, detail }) => Err(
            anchor_refusal(
                path,
                "NO_MATCH"@,
                detail,
                candidates,
                "Refine the anchor from the candidates, or locate with grep first."@,
                hash_of(content),
            ),
        ),
        Err(_) => Err(
            plain_refusal(
                "UNDERSPECIFIED"@,
                "edit: anchor is empty (underspecified read)"@,
                Some("Provide a non-empty anchor, or use start_line/end_line."@),
            ),
        ),
        Ok(l) => {
            let (first, last) = around(l, total, before, after);
            if cost(split_nl(content), first, last) > READ_MAX_CHARS {
                Err(
                    plain_refusal(
                        "RANGE_TOO_LARGE"@,
                        "edit: anchored window exceeds the model output budget"@,
                        Some("Reduce context_before/context_after."@),
                    ),
                )
            } else {
                Ok(
                    shown_lines(
                        content,
                        first,
                        last,
                        Some(
                            FoundView {
                                anchor_line: l.start_line + 1,
                                anchor_lines: if l.win_lines >= 1 { l.win_lines } else { 1 },
                                tier: l.tier,
                                score: l.score,
                                note: l.note,
                            },
                        ),
                    ),
                )
            }
        },
    }
}

/// Writes the refusal of a read whose anchor could not be placed.
pub fn render_read_candidates(path: &str, code: &str, detail: &str, cands: &[Candidate]) -> (out:
    String)
    ensures
        out@ == "[ERROR] edit "@ + path@ + "\n  "@ + code@ + ": "@ + detail@ + "\n"@
            + candidates_lines(cand_views(cands@), cands@.len() as int),
{
    let mut out: String = "[ERROR] edit ".to_owned();
    out.append(path);
    out.append("\n  ");
    out.append(code);
    out.append(": ");
    out.append(detail);
    out.append("\n");
    render_candidates(&mut out, cands);
    out
}

fn refuse_anchor(
    path: &str,
    code: &str,
    detail: String,
    cands: Vec<Candidate>,
    hint: &str,
    hash: String,
) -> (r: Refusal)
    ensures
        r@ == anchor_refusal(path@, code@, detail@, cand_views(cands@), hint@, hash@),
{
    let text: String = render_read_candidates(path, code, detail.as_str(), cands.as_slice());
    Refusal {
        code: code.to_owned(),
        text,
        message: detail,
        retryable: true,
        hint: Some(hint.to_owned()),
        hash: Some(hash),
        total_lines: None,
        candidates: Some(cands),
    }
}

/// Answers a read around an anchor.
pub fn read_anchored(content: &str, raw_path: &str, anchor: &str, before: usize, after: usize) -> (r:
    Result<ReadReply, Refusal>)
    ensures
        reply_result(r) == anchored_reply(
            content@,
            raw_path@,
            anchor@,
            before as int,
            after as int,
        ),
{
    let view: FileView = FileView::new(content);
    let lines: usize = view.lines.len();
    let total: usize = count_split(view.lines.as_slice());
    let hash: String = content_hash(content);
    let l: Located = match locate_anchor(&view, anchor) {
        Ok(l) => l,
        Err(LocateError::Ambiguous { candidates, detail }) => {
            return Err(
                refuse_anchor(
                    raw_path,
                    "ANCHOR_AMBIGUOUS",
                    detail,
                    candidates,
                    "Add context_before/context_after to narrow the window, or read by line range (start_line/end_line).",
                    hash,
                ),
            );
        },
        Err(LocateError::NoMatch { candidates, detail }) => {
            return Err(
                refuse_anchor(
                    raw_path,
                    "NO_MATCH",
                    detail,
                    candidates,
                    "Refine the anchor from the candidates, or locate with grep first.",
                    hash,
                ),
            );
        },
        Err(_) => {
            return Err(
                refuse(
                    "UNDERSPECIFIED",
                    "edit: anchor is empty (underspecified read)".to_owned(),
                    Some("Provide a non-empty anchor, or use start_line/end_line."),
                ),
            );
        },
    };
    let s: usize = l.start_line;
    let w: usize = l.win_lines;
    let room: usize = if total >= s + w {
        total - (s + w)
    } else {
        0
    };
    let more: usize = if after <= room {
        after
    } else {
        room
    };
    let first: usize = if before <= s {
        s - before
    } else {
        0
    };
    let end: usize = s + w + more;
    let last: usize = if end <= total {
        end
    } else {
        total
    };
    if cost_capped(view.lines.as_slice(), first, last, READ_MAX_CHARS) > READ_MAX_CHARS as u128 {
        return Err(
            refuse(
                "RANGE_TOO_LARGE",
                "edit: anchored window exceeds the model output budget".to_owned(),
                Some("Reduce context_before/context_after."),
            ),
        );
    }
    let body: Vec<char> = list_lines(view.lines.as_slice(), first, last);
    Ok(
        ReadReply {
            text: string_of(body.as_slice()),
            hash,
            total_lines: total,
            truncated: false,
            shown: Some((first + 1, last)),
            found: Some(
                Found {
                    anchor_line: s + 1,
                    anchor_lines: w,
                    tier: l.tier,
                    score: l.score,
                    note: l.note,
                },
            ),
        },
    )
}

/// The answer to a read of a whole file: cut to the limit, with a note that says so.
pub open spec fn whole_reply(content: Seq<char>) -> ReplyView {
    let total = line_count(content);
    let truncated = byte_len(content) > CONTENT_CAP;
    ReplyView {
        text: if truncated {
            capped(content) + "\n(read-only: "@ + dec(total) + " lines, truncated)\n"@
        } else {
            content
        },
        hash: hash_of(content),
        total_lines: total as int,
        truncated,
        shown: None,
        found: None,
    }
}

/// Answers a read of a whole file.
pub fn read_whole(content: &str) -> (r: ReadReply)
    ensures
        r@ == whole_reply(content@),
{
    let view: FileView = FileView::new(content);
    let total: usize = count_split(view.lines.as_slice());
    let truncated: bool = byte_length(view.content.as_slice()) > CONTENT_CAP as u128;
    let text: String = if truncated {
        let mut t: String = truncate_content(content);
        t.append("\n(read-only: ");
        t.append(decimal_size(total).as_str());
        t.append(" lines, truncated)\n");
        t
    } else {
        content.to_owned()
    };
    ReadReply {
        text,
        hash: content_hash(content),
        total_lines: total,
        truncated,
        shown: None,
        found: None,
    }
}

/// The answer to a request on a content.
pub open spec fn content_reply(content: Seq<char>, path: Seq<char>, q: RequestView) -> Result<
    ReplyView,
    RefusalView,
> {
    match q {
        RequestView::Whole => Ok(whole_reply(content)),
        RequestView::Range { start, end } => range_reply(content, path, start, end),
        RequestView::Anchored { anchor, before, after } => anchored_reply(
            content,
            path,
            anchor,
            before as int,
            after as int,
        ),
    }
}

/// The answer to a read call, given what reading the file gave.
pub open spec fn read_answer(path: Seq<char>, args: Json, file: FileRead) -> Result<
    ReplyView,
    RefusalView,
> {
    match request_of(args) {
        Err(e) => Err(e),
        Ok(q) => match file {
            FileRead::Missing => Err(
                plain_refusal(
                    "FILE_NOT_FOUND"@,
                    "edit: "@ + path
                        + ": file not found (read mode; creation requires explicit hunks)"@,
                    Some("Provide prepend_file / append_file / overwrite hunks to create the file"@),
                ),
            ),
            FileRead::Failed(e) => Err(
                plain_refusal("READ_FAILED"@, "edit: cannot read "@ + path + ": "@ + e@, None),
            ),
            FileRead::NotUtf8 => Err(
                plain_refusal(
                    "NOT_UTF8_TEXT"@,
                    "edit: "@ + path + " is not valid UTF-8 text (treated as binary)"@,
                    None,
                ),
            ),
            FileRead::Text(raw) => content_reply(lf_view(raw@), path, q),
        },
    }
}

/// Answers a call without hunks, given what reading the file gave.
pub fn read_path(raw_path: &str, args: &Json, file: FileRead) -> (r: Result<ReadReply, Refusal>)
    ensures
        reply_result(r) == read_answer(raw_path@, *args, file),
{
    let q: ReadRequest = match read_request(args) {
        Ok(q) => q,
        Err(e) => {
            return Err(e);
        },
    };
    match file {
        FileRead::Missing => {
            let mut message: String = "edit: ".to_owned();
            message.append(raw_path);
            message.append(": file not found (read mode; creation requires explicit hunks)");
            Err(
                refuse(
                    "FILE_NOT_FOUND",
                    message,
                    Some("Provide prepend_file / append_file / overwrite hunks to create the file"),
                ),
            )
        },
        FileRead::Failed(e) => {
            let mut message: String = "edit: cannot read ".to_owned();
            message.append(raw_path);
            message.append(": ");
            message.append(e.as_str());
            Err(refuse("READ_FAILED", message, None))
        },
        FileRead::NotUtf8 => {
            let mut message: String = "edit: ".to_owned();
            message.append(raw_path);
            message.append(" is not valid UTF-8 text (treated as binary)");
            Err(refuse("NOT_UTF8_TEXT", message, None))
        },
        FileRead::Text(raw) => {
            let (content, _cr): (String, bool) = normalize_newlines(raw.as_str());
            match q {
                ReadRequest::Whole => Ok(read_whole(content.as_str())),
                ReadRequest::Range { start, end } => read_range(
                    content.as_str(),
                    raw_path,
                    start,
                    end,
                ),
                ReadRequest::Anchored { anchor, before, after } => read_anchored(
                    content.as_str(),
                    raw_path,
                    anchor.as_str(),
                    before,
                    after,
                ),
            }
        },
    }
}

} // verus!
