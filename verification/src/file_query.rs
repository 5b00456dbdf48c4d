//! Reading files: numbered, contiguous lines, with line numbers corrected for edits
//! made since they were shown.

use vstd::prelude::*;

use crate::file_cache::{short_hash, with_file};
use crate::file_shared::{
    content_hash, hash_of, is_binary_error, is_binary_read_error, lf_view, normalize_newlines,
    READ_MAX_CHARS, READ_MAX_LINES,
};
use crate::format::{dec, decimal_size};
use crate::json::{arr_at, opt_text, str_at, text_eq, u64_at, Json};
use crate::ledger::{
    canonical_hash, correct_line, corrected, noted, record_read, EntryView, Ledger, LedgerView,
    LineShift,
};
use crate::lines::{join, join_parts, lemma_split_nonempty, split_lines, split_nl, views};
use crate::numbered::{lemma_reach_bounds, list_lines, listing, reach, reach_of};
use crate::refusal::{plain_refusal, refuse, Refusal, RefusalView};
use crate::text::{chars_of, string_of};

verus! {

/// The most files that one call may ask for.
pub const MAX_REQUESTS: usize = 8;

/// The most characters that one call may answer with.
pub const MAX_BATCH_CHARS: usize = 48_000;

/// The most lines that an explicit range may come to once it is cut to the file.
pub const MAX_EXPLICIT_LINES: usize = 600;

/// What is found at a path.
#[derive(Debug, PartialEq, Eq)]
pub enum Probe {
    /// A file that belongs to a skill, by the skill's name.
    Managed(String),
    Directory,
    Text(String),
    /// It cannot be read as text, with the error's message.
    Failed(String),
}

/// One file that is asked for: the resolved path, the lines, the fingerprint that the
/// caller already has, and what is found at the path.
#[derive(Debug, PartialEq, Eq)]
pub struct ReadItem {
    pub path: String,
    pub start: Option<usize>,
    pub end: Option<usize>,
    pub if_hash: Option<String>,
    pub probe: Probe,
}

/// A line number of a request; 0 counts as 1.
pub open spec fn line_wanted(args: Json, key: Seq<char>) -> Option<usize> {
    match u64_at(args, key) {
        Some(n) => Some(if n as usize == 0 { 1usize } else { n as usize }),
        None => None,
    }
}

fn wanted_line(args: &Json, key: &str) -> (r: Option<usize>)
    ensures
        r == line_wanted(*args, key@),
{
    match args.get_u64(key) {
        Some(n) => {
            let k: usize = n as usize;
            Some(if k == 0 { 1usize } else { k })
        },
        None => None,
    }
}

/// Reads one request.
pub fn read_item(args: &Json, path: String, probe: Probe) -> (item: ReadItem)
    ensures
        item.path == path,
        item.probe == probe,
        item.start == line_wanted(*args, "start_line"@),
        item.end == line_wanted(*args, "end_line"@),
        opt_text(item.if_hash) == str_at(*args, "if_hash"@),
{
    ReadItem {
        path,
        start: wanted_line(args, "start_line"),
        end: wanted_line(args, "end_line"),
        if_hash: match args.get_str("if_hash") {
            Some(h) => Some(h.to_owned()),
            None => None,
        },
        probe,
    }
}

/// The refusal of a call that asks for no file or for too many.
pub open spec fn count_refusal() -> RefusalView {
    plain_refusal(
        "INVALID_REQUEST_COUNT"@,
        "read accepts between 1 and 8 file requests"@,
        Some("Split the read into multiple calls."@),
    )
}

/// The files that a call asks for, or why it is refused: those of its list, or the
/// one that its own fields describe.
pub fn requests_of(args: &Json) -> (r: Result<Vec<&Json>, Refusal>)
    ensures
        match arr_at(*args, "requests"@) {
            Some(list) => if 1 <= list.len() <= MAX_REQUESTS {
                &&& r is Ok
                &&& r->Ok_0@.len() == list.len()
                &&& forall|i: int| 0 <= i < list.len() ==> *#[trigger] r->Ok_0@[i] == list[i]
            } else {
                r is Err && r->Err_0@ == count_refusal()
            },
            None => r is Ok && r->Ok_0@.len() == 1 && *r->Ok_0@[0] == *args,
        },
{
    match args.get_array("requests") {
        None => {
            let mut one: Vec<&Json> = Vec::new();
            one.push(args);
            Ok(one)
        },
        Some(list) => {
            let n: usize = list.len();
            if n == 0 || n > MAX_REQUESTS {
                return Err(
                    refuse(
                        "INVALID_REQUEST_COUNT",
                        "read accepts between 1 and 8 file requests".to_owned(),
                        Some("Split the read into multiple calls."),
                    ),
                );
            }
            let mut out: Vec<&Json> = Vec::new();
            let mut i: usize = 0;
            while i < n
                invariant
                    i <= n == list@.len(),
                    out@.len() == i,
                    forall|k: int| 0 <= k < i ==> *#[trigger] out@[k] == list@[k],
                decreases n - i,
            {
                out.push(&list[i]);
                i = i + 1;
            }
            Ok(out)
        },
    }
}

/// The answer for one file.
#[derive(Debug, PartialEq, Eq)]
pub struct ReadOne {
    pub text: String,
    pub path: String,
    pub hash: String,
    /// The content has the fingerprint that the caller already has.
    pub not_modified: bool,
    /// First and last line, 1-based.
    pub start_line: usize,
    pub end_line: usize,
    pub total_lines: usize,
    /// Where a next read goes on, when lines are left.
    pub next_line: Option<usize>,
    /// The lines as they were asked for, and by how much they have moved.
    pub correction: Option<(usize, usize, i128)>,
}

/// What an answer says.
#[verifier::ext_equal]
pub struct OneView {
    pub text: Seq<char>,
    pub path: Seq<char>,
    pub hash: Seq<char>,
    pub not_modified: bool,
    pub start_line: int,
    pub end_line: int,
    pub total_lines: int,
    pub next_line: Option<int>,
    pub correction: Option<(int, int, int)>,
}

impl View for ReadOne {
    type V = OneView;

    open spec fn view(&self) -> OneView {
        OneView {
            text: self.text@,
            path: self.path@,
            hash: self.hash@,
            not_modified: self.not_modified,
            start_line: self.start_line as int,
            end_line: self.end_line as int,
            total_lines: self.total_lines as int,
            next_line: match self.next_line {
                Some(n) => Some(n as int),
                None => None,
            },
            correction: match self.correction {
                Some(c) => Some((c.0 as int, c.1 as int, c.2 as int)),
                None => None,
            },
        }
    }
}

/// How many lines a read counts, at least one: a newline at the very end opens no further
/// line.
pub open spec fn total_of(content: Seq<char>) -> int {
    if content.len() > 0 && content.last() == '\n' {
        split_nl(content).len() - 1
    } else {
        split_nl(content).len() as int
    }
}

/// Where a line that was shown is now, given the recorded moves.
pub open spec fn line_now(
    shifts: Map<Seq<char>, Seq<Seq<LineShift>>>,
    path: Seq<char>,
    line: usize,
) -> Option<(int, int)> {
    corrected(
        LedgerView {
            files: Seq::<EntryView>::empty(),
            queue: Seq::<EntryView>::empty(),
            shifts,
            cache: crate::file_cache::CacheView {
                entries: Seq::<crate::file_cache::CachedView>::empty(),
                last_read: None,
            },
        },
        path,
        line as int,
    )
}

/// A range as asked for, corrected when both its ends have moved by the same number
/// of lines: first line, last line, and the correction.
pub open spec fn placed_range(
    shifts: Map<Seq<char>, Seq<Seq<LineShift>>>,
    path: Seq<char>,
    start: Option<usize>,
    end: Option<usize>,
) -> (Option<int>, Option<int>, Option<(int, int, int)>) {
    let plain = (
        match start {
            Some(s) => Some(s as int),
            None => None,
        },
        match end {
            Some(e) => Some(e as int),
            None => None,
        },
        None::<(int, int, int)>,
    );
    match (start, end) {
        (Some(s), Some(e)) => match (line_now(shifts, path, s), line_now(shifts, path, e)) {
            (Some(a), Some(b)) => if (a.0 != s || b.0 != e) && a.1 == b.1 {
                (Some(a.0), Some(b.0), Some((s as int, e as int, a.1)))
            } else {
                plain
            },
            _ => plain,
        },
        _ => plain,
    }
}

/// The refusal of a range that is too long for an answer.
pub open spec fn over_budget() -> RefusalView {
    plain_refusal(
        "RANGE_TOO_LARGE"@,
        "requested range exceeds the model output budget"@,
        Some("Split the range into smaller contiguous reads."@),
    )
}

/// The answer to a read of a content.
pub open spec fn content_answer(
    shifts: Map<Seq<char>, Seq<Seq<LineShift>>>,
    path: Seq<char>,
    start: Option<usize>,
    end: Option<usize>,
    content: Seq<char>,
) -> Result<OneView, RefusalView> {
    let lines = split_nl(content);
    let total = total_of(content);
    let (s, e, fixed) = placed_range(shifts, path, start, end);
    let explicit = s is Some || e is Some;
    let first = match s {
        Some(n) => if n <= 0 { 0 } else { n - 1 },
        None => 0,
    };
    let asked = match e {
        Some(n) => if n <= total { n } else { total },
        None => total,
    };
    let last = if explicit {
        asked
    } else {
        reach(lines, 0, total, READ_MAX_CHARS as nat)
    };
    let what = "requested lines are outside '"@ + path + "' ("@ + dec(total as nat) + " total lines)"@;
    if first >= total {
        Err(
            RefusalView {
                total_lines: Some(total as usize),
                hash: Some(hash_of(content)),
                ..plain_refusal(
                    "LINE_OUT_OF_RANGE"@,
                    what,
                    Some("Use the total_lines value and retry."@),
                )
            },
        )
    } else if explicit && (last - first > MAX_EXPLICIT_LINES || listing(lines, first, last).len()
        > READ_MAX_CHARS) {
        Err(over_budget())
    } else {
        Ok(
            OneView {
                text: listing(lines, first, last),
                path,
                hash: hash_of(content),
                not_modified: false,
                start_line: first + 1,
                end_line: last,
                total_lines: total,
                next_line: if last < total {
                    Some(last + 1)
                } else {
                    None
                },
                correction: fixed,
            },
        )
    }
}

/// Why a range is refused before the file is opened.
pub open spec fn range_refusal(start: Option<usize>, end: Option<usize>) -> Option<RefusalView> {
    match (start, end) {
        (Some(s), Some(e)) => if e < s {
            Some(
                plain_refusal(
                    ""@,
                    "end_line must be greater than or equal to start_line"@,
                    None,
                ),
            )
        } else if e - s + 1 > READ_MAX_LINES {
            Some(
                plain_refusal(
                    "RANGE_TOO_LARGE"@,
                    "requested range exceeds "@ + dec(READ_MAX_LINES as nat) + " lines"@,
                    Some("Use smaller contiguous ranges."@),
                ),
            )
        } else {
            None
        },
        _ => None,
    }
}

/// The answer to one request, given the recorded moves of lines.
pub open spec fn one_answer(shifts: Map<Seq<char>, Seq<Seq<LineShift>>>, item: ReadItem) -> Result<
    OneView,
    RefusalView,
> {
    let path = item.path@;
    if path.len() == 0 {
        Err(plain_refusal(""@, "read: path is required"@, None))
    } else {
        match item.probe {
            Probe::Managed(skill) => Err(
                plain_refusal(
                    "USE_SKILLS_TOOL"@,
                    "'"@ + path + "' is managed by skill '"@ + skill@ + "'"@,
                    Some("Use skills(action=activate|resource, name=...) instead."@),
                ),
            ),
            Probe::Directory => Err(
                plain_refusal(
                    "IS_DIRECTORY"@,
                    "'"@ + path + "' is a directory"@,
                    Some(
                        "Use exec with argv [\"rg\", \"--files\"] (or [\"ls\", \"-la\"] / [\"cmd\", \"/c\", \"dir\", \"/b\"]) to list directory contents."@,
                    ),
                ),
            ),
            Probe::Failed(e) => match range_refusal(item.start, item.end) {
                Some(r) => Err(r),
                None => if is_binary_error(e@) {
                    Err(
                        plain_refusal(
                            "BINARY_FILE"@,
                            "'"@ + path + "' is binary and cannot be read as text"@,
                            Some("Use exec for a binary-aware inspection."@),
                        ),
                    )
                } else {
                    Err(
                        plain_refusal(
                            "NOT_FOUND"@,
                            "cannot read '"@ + path + "': "@ + e@,
                            Some("Verify the path, then retry read."@),
                        ),
                    )
                },
            },
            Probe::Text(raw) => match range_refusal(item.start, item.end) {
                Some(r) => Err(r),
                None => {
                    let content = lf_view(raw@);
                    if opt_text(item.if_hash) == Some(hash_of(content)) {
                        Ok(
                            OneView {
                                text: "not modified"@,
                                path,
                                hash: hash_of(content),
                                not_modified: true,
                                start_line: 0,
                                end_line: 0,
                                total_lines: total_of(content),
                                next_line: None,
                                correction: None,
                            },
                        )
                    } else {
                        content_answer(shifts, path, item.start, item.end, content)
                    }
                },
            },
        }
    }
}

/// The content that a request is answered from.
pub open spec fn shown_content(item: ReadItem) -> Seq<char> {
    match item.probe {
        Probe::Text(raw) => lf_view(raw@),
        _ => Seq::<char>::empty(),
    }
}

/// The ledger after an answer.
pub open spec fn ledger_after(l: LedgerView, item: ReadItem) -> LedgerView {
    match one_answer(l.shifts, item) {
        Ok(v) => if v.not_modified {
            l
        } else {
            LedgerView {
                shifts: l.shifts.remove(v.path),
                cache: with_file(
                    l.cache,
                    v.path,
                    short_hash(shown_content(item)),
                    v.total_lines as usize,
                ),
                ..noted(
                    l,
                    EntryView {
                        path: v.path,
                        op: "read"@,
                        line_count: v.total_lines,
                        hash: Some(v.hash),
                    },
                )
            }
        },
        Err(_) => l,
    }
}

/// An answer as its view.
pub open spec fn one_result(r: Result<ReadOne, Refusal>) -> Result<OneView, RefusalView> {
    match r {
        Ok(x) => Ok(x@),
        Err(e) => Err(e@),
    }
}

fn count_total(content: &[char], lines: &[Vec<char>]) -> (n: usize)
    requires
        views(lines@) == split_nl(content@),
        lines@.len() >= 1,
    ensures
        n == total_of(content@),
        n <= lines@.len(),
{
    let k: usize = content.len();
    let m: usize = lines.len();
    if k > 0 && content[k - 1] == '\n' {
        m - 1
    } else {
        m
    }
}

fn refuse_range(start: Option<usize>, end: Option<usize>) -> (r: Option<Refusal>)
    ensures
        match r {
            Some(e) => range_refusal(start, end) == Some(e@),
            None => range_refusal(start, end) is None,
        },
{
    if let (Some(s), Some(e)) = (start, end) {
        if e < s {
            return Some(
                refuse(
                    "",
                    "end_line must be greater than or equal to start_line".to_owned(),
                    None,
                ),
            );
        }
        if e - s >= READ_MAX_LINES {
            let mut message: String = "requested range exceeds ".to_owned();
            message.append(decimal_size(READ_MAX_LINES).as_str());
            message.append(" lines");
            return Some(refuse("RANGE_TOO_LARGE", message, Some("Use smaller contiguous ranges.")));
        }
    }
    None
}

fn place_range(ledger: &Ledger, path: &str, start: Option<usize>, end: Option<usize>) -> (r: (
    Option<usize>,
    Option<usize>,
    Option<(usize, usize, i128)>,
))
    ensures
        ({
            let p = placed_range(ledger@.shifts, path@, start, end);
            &&& match r.0 {
                Some(n) => p.0 == Some(n as int),
                None => p.0 is None,
            }
            &&& match r.1 {
                Some(n) => p.1 == Some(n as int),
                None => p.1 is None,
            }
            &&& match r.2 {
                Some(c) => p.2 == Some((c.0 as int, c.1 as int, c.2 as int)),
                None => p.2 is None,
            }
        }),
{
    if let (Some(s), Some(e)) = (start, end) {
        let a: Option<(usize, i128)> = correct_line(ledger, path, s);
        let b: Option<(usize, i128)> = correct_line(ledger, path, e);
        proof {
            assert(corrected(ledger@, path@, s as int) == line_now(ledger@.shifts, path@, s));
            assert(corrected(ledger@, path@, e as int) == line_now(ledger@.shifts, path@, e));
        }
        if let (Some((s2, ds)), Some((e2, de))) = (a, b) {
            if (s2 != s || e2 != e) && ds == de {
                return (Some(s2), Some(e2), Some((s, e, ds)));
            }
        }
    }
    (start, end, None)
}

/// The end of a range never comes before its start, corrected or not.
proof fn lemma_range_order(
    shifts: Map<Seq<char>, Seq<Seq<LineShift>>>,
    path: Seq<char>,
    start: Option<usize>,
    end: Option<usize>,
)
    requires
        range_refusal(start, end) is None,
    ensures
        ({
            let p = placed_range(shifts, path, start, end);
            p.0 is Some && p.1 is Some ==> p.0->0 <= p.1->0
        }),
{
}

fn read_content(
    ledger: &Ledger,
    path: &str,
    start: Option<usize>,
    end: Option<usize>,
    content: &str,
) -> (r: Result<ReadOne, Refusal>)
    requires
        range_refusal(start, end) is None,
    ensures
        one_result(r) == content_answer(ledger@.shifts, path@, start, end, content@),
{
    let chars: Vec<char> = chars_of(content);
    let lines: Vec<Vec<char>> = split_lines(chars.as_slice());
    proof {
        lemma_split_nonempty(content@);
        lemma_range_order(ledger@.shifts, path@, start, end);
    }
    let total: usize = count_total(chars.as_slice(), lines.as_slice());
    let hash: String = content_hash(content);
    let (s, e, correction): (Option<usize>, Option<usize>, Option<(usize, usize, i128)>) =
        place_range(ledger, path, start, end);
    let explicit: bool = s.is_some() || e.is_some();
    let first: usize = match s {
        Some(n) => if n == 0 {
            0
        } else {
            n - 1
        },
        None => 0,
    };
    if first >= total {
        let mut what: String = "requested lines are outside '".to_owned();
        what.append(path);
        what.append("' (");
        what.append(decimal_size(total).as_str());
        what.append(" total lines)");
        let mut refusal: Refusal = refuse(
            "LINE_OUT_OF_RANGE",
            what,
            Some("Use the total_lines value and retry."),
        );
        refusal.total_lines = Some(total);
        refusal.hash = Some(hash);
        return Err(refusal);
    }
    let last: usize = if explicit {
        match e {
            Some(n) => if n <= total {
                n
            } else {
                total
            },
            None => total,
        }
    } else {
        reach_of(lines.as_slice(), 0, total, READ_MAX_CHARS)
    };
    proof {
        assert(first <= last);
    }
    if explicit && last - first > MAX_EXPLICIT_LINES {
        return Err(
            refuse(
                "RANGE_TOO_LARGE",
                "requested range exceeds the model output budget".to_owned(),
                Some("Split the range into smaller contiguous reads."),
            ),
        );
    }
    let body: Vec<char> = list_lines(lines.as_slice(), first, last);
    if explicit && body.len() > READ_MAX_CHARS {
        return Err(
            refuse(
                "RANGE_TOO_LARGE",
                "requested range exceeds the model output budget".to_owned(),
                Some("Split the range into smaller contiguous reads."),
            ),
        );
    }
    Ok(
        ReadOne {
            text: string_of(body.as_slice()),
            path: path.to_owned(),
            hash,
            not_modified: false,
            start_line: first + 1,
            end_line: last,
            total_lines: total,
            next_line: if last < total {
                Some(last + 1)
            } else {
                None
            },
            correction,
        },
    )
}

/// Answers one request. A file that is shown is recorded: from then on its lines are
/// counted anew.
pub fn read_one(ledger: &mut Ledger, item: &ReadItem) -> (r: Result<ReadOne, Refusal>)
    ensures
        one_result(r) == one_answer(old(ledger)@.shifts, *item),
        final(ledger)@ == ledger_after(old(ledger)@, *item),
        r matches Ok(v) ==> (v.not_modified ==> opt_text(item.if_hash) == Some(v.hash@)),
{
    let path: &str = item.path.as_str();
    if path.is_empty() {
        return Err(refuse("", "read: path is required".to_owned(), None));
    }
    match &item.probe {
        Probe::Managed(skill) => {
            let mut message: String = "'".to_owned();
            message.append(path);
            message.append("' is managed by skill '");
            message.append(skill.as_str());
            message.append("'");
            Err(
                refuse(
                    "USE_SKILLS_TOOL",
                    message,
                    Some("Use skills(action=activate|resource, name=...) instead."),
                ),
            )
        },
        Probe::Directory => {
            let mut message: String = "'".to_owned();
            message.append(path);
            message.append("' is a directory");
            Err(
                refuse(
                    "IS_DIRECTORY",
                    message,
                    Some(
                        "Use exec with argv [\"rg\", \"--files\"] (or [\"ls\", \"-la\"] / [\"cmd\", \"/c\", \"dir\", \"/b\"]) to list directory contents.",
                    ),
                ),
            )
        },
        Probe::Failed(e) => {
            if let Some(r) = refuse_range(item.start, item.end) {
                return Err(r);
            }
            if is_binary_read_error(e.as_str()) {
                let mut message: String = "'".to_owned();
                message.append(path);
                message.append("' is binary and cannot be read as text");
                return Err(
                    refuse(
                        "BINARY_FILE",
                        message,
                        Some("Use exec for a binary-aware inspection."),
                    ),
                );
            }
            let mut message: String = "cannot read '".to_owned();
            message.append(path);
            message.append("': ");
            message.append(e.as_str());
            Err(refuse("NOT_FOUND", message, Some("Verify the path, then retry read.")))
        },
        Probe::Text(raw) => {
            if let Some(r) = refuse_range(item.start, item.end) {
                return Err(r);
            }
            let (content, _cr): (String, bool) = normalize_newlines(raw.as_str());
            let known: bool = match &item.if_hash {
                Some(h) => {
                    let hash: String = content_hash(content.as_str());
                    text_eq(h.as_str(), hash.as_str())
                },
                None => false,
            };
            if known {
                let chars: Vec<char> = chars_of(content.as_str());
                let lines: Vec<Vec<char>> = split_lines(chars.as_slice());
                proof {
                    lemma_split_nonempty(content@);
                }
                return Ok(
                    ReadOne {
                        text: "not modified".to_owned(),
                        path: path.to_owned(),
                        hash: content_hash(content.as_str()),
                        not_modified: true,
                        start_line: 0,
                        end_line: 0,
                        total_lines: count_total(chars.as_slice(), lines.as_slice()),
                        next_line: None,
                        correction: None,
                    },
                );
            }
            let one: ReadOne = match read_content(
                ledger,
                path,
                item.start,
                item.end,
                content.as_str(),
            ) {
                Ok(o) => o,
                Err(e) => {
                    return Err(e);
                },
            };
            proof {
                crate::file_shared::newline_view_is_stable(raw@);
                assert(canonical_hash(content@) == hash_of(content@));
            }
            record_read(ledger, path, content.as_str(), one.total_lines);
            Ok(one)
        },
    }
}

/// The ledger after the requests below `n`.
pub open spec fn ledger_after_all(l: LedgerView, items: Seq<ReadItem>, n: int) -> LedgerView
    decreases n,
{
    if n <= 0 {
        l
    } else {
        ledger_after(ledger_after_all(l, items, n - 1), items[n - 1])
    }
}

/// The answer to request `i` of a call.
pub open spec fn answer_at(l: LedgerView, items: Seq<ReadItem>, i: int) -> Result<
    OneView,
    RefusalView,
> {
    one_answer(ledger_after_all(l, items, i).shifts, items[i])
}

/// How long the texts of the requests below `n` are together.
pub open spec fn chars_upto(l: LedgerView, items: Seq<ReadItem>, n: int) -> nat
    decreases n,
{
    if n <= 0 {
        0
    } else {
        chars_upto(l, items, n - 1) + (match answer_at(l, items, n - 1) {
            Ok(v) => v.text.len(),
            Err(_) => 0,
        })
    }
}

/// The refusal of a call whose answers are too long together.
pub open spec fn batch_refusal() -> RefusalView {
    plain_refusal(
        "RANGE_TOO_LARGE"@,
        "combined read result exceeds the 12k-token lap budget"@,
        Some("Read fewer files or split the requests."@),
    )
}

/// Why the first `n` requests are refused together, if they are: the first one that
/// fails, or the point where the texts grow too long.
pub open spec fn batch_error(l: LedgerView, items: Seq<ReadItem>, n: int) -> Option<(int, RefusalView)>
    decreases n,
{
    if n <= 0 {
        None
    } else {
        match batch_error(l, items, n - 1) {
            Some(e) => Some(e),
            None => match answer_at(l, items, n - 1) {
                Err(e) => Some((n, e)),
                Ok(_) => if chars_upto(l, items, n) > MAX_BATCH_CHARS {
                    Some((n, batch_refusal()))
                } else {
                    None
                },
            },
        }
    }
}

/// What stands between the texts of two files.
pub open spec fn divider() -> Seq<char> {
    "\n\n---\n\n"@
}

/// The answer to a call for several files.
#[derive(Debug, PartialEq, Eq)]
pub struct ReadBatch {
    pub text: String,
    pub files: Vec<ReadOne>,
}

proof fn lemma_batch_stays(l: LedgerView, items: Seq<ReadItem>, a: int, b: int)
    requires
        a <= b,
        batch_error(l, items, a) is Some,
    ensures
        batch_error(l, items, b) == batch_error(l, items, a),
    decreases b - a,
{
    if a < b {
        lemma_batch_stays(l, items, a, b - 1);
        if b <= 0 {
            assert(batch_error(l, items, a) is None);
        }
    }
}

/// Answers a call for some files, one after the other; the first refusal ends it.
pub fn exec_read(ledger: &mut Ledger, items: &[ReadItem]) -> (r: Result<ReadBatch, Refusal>)
    ensures
        match batch_error(old(ledger)@, items@, items@.len() as int) {
            Some(e) => {
                &&& r is Err
                &&& r->Err_0@ == e.1
                &&& final(ledger)@ == ledger_after_all(old(ledger)@, items@, e.0)
            },
            None => {
                &&& r is Ok
                &&& r->Ok_0.files@.len() == items@.len()
                &&& forall|i: int|
                    0 <= i < items@.len() ==> answer_at(old(ledger)@, items@, i) == Ok::<
                        OneView,
                        RefusalView,
                    >((#[trigger] r->Ok_0.files@[i])@)
                &&& r->Ok_0.text@ == join(
                    Seq::new(items@.len(), |i: int| r->Ok_0.files@[i].text@),
                    divider(),
                )
                &&& final(ledger)@ == ledger_after_all(
                    old(ledger)@,
                    items@,
                    items@.len() as int,
                )
            },
        },
{
    let ghost start = ledger@;
    let mut files: Vec<ReadOne> = Vec::new();
    let mut parts: Vec<Vec<char>> = Vec::new();
    let mut total: u128 = 0;
    let mut i: usize = 0;
    let n: usize = items.len();
    while i < n
        invariant
            i <= n == items@.len(),
            start == old(ledger)@,
            batch_error(start, items@, i as int) is None,
            total == chars_upto(start, items@, i as int),
            total <= MAX_BATCH_CHARS,
            files@.len() == i,
            parts@.len() == i,
            forall|k: int|
                0 <= k < i ==> answer_at(start, items@, k) == Ok::<OneView, RefusalView>(
                    (#[trigger] files@[k])@,
                ),
            forall|k: int| 0 <= k < i ==> #[trigger] parts@[k]@ == files@[k].text@,
            ledger@ == ledger_after_all(start, items@, i as int),
        decreases n - i,
    {
        match read_one(ledger, &items[i]) {
            Err(e) => {
                proof {
                    assert(batch_error(start, items@, i + 1) == Some((i + 1, e@)));
                    lemma_batch_stays(start, items@, i + 1, n as int);
                }
                return Err(e);
            },
            Ok(one) => {
                let text: Vec<char> = chars_of(one.text.as_str());
                let k: usize = text.len();
                total = total + k as u128;
                if total > MAX_BATCH_CHARS as u128 {
                    proof {
                        assert(batch_error(start, items@, i + 1) == Some((i + 1, batch_refusal())));
                        lemma_batch_stays(start, items@, i + 1, n as int);
                    }
                    return Err(
                        refuse(
                            "RANGE_TOO_LARGE",
                            "combined read result exceeds the 12k-token lap budget".to_owned(),
                            Some("Read fewer files or split the requests."),
                        ),
                    );
                }
                parts.push(text);
                files.push(one);
            },
        }
        i = i + 1;
    }
    let sep: Vec<char> = chars_of("\n\n---\n\n");
    let joined: Vec<char> = join_parts(parts.as_slice(), sep.as_slice());
    let text: String = string_of(joined.as_slice());
    proof {
        assert(views(parts@) =~= Seq::new(items@.len(), |i: int| files@[i].text@));
    }
    Ok(ReadBatch { text, files })
}

/// Every line that a read shows carries its own number and its own text, and the
/// lines are contiguous.
pub proof fn shown_lines_are_numbered_and_contiguous(
    shifts: Map<Seq<char>, Seq<Seq<LineShift>>>,
    path: Seq<char>,
    start: Option<usize>,
    end: Option<usize>,
    content: Seq<char>,
)
    ensures
        content_answer(shifts, path, start, end, content) matches Ok(v) ==> v.text == listing(
            split_nl(content),
            v.start_line - 1,
            v.end_line,
        ),
{
}

/// A read that is cut short says where to go on, and the next read from there starts
/// with the first line that was not shown.
pub proof fn continuation_goes_on_where_it_stopped(
    shifts: Map<Seq<char>, Seq<Seq<LineShift>>>,
    path: Seq<char>,
    start: Option<usize>,
    end: Option<usize>,
    content: Seq<char>,
    later: Map<Seq<char>, Seq<Seq<LineShift>>>,
    next: usize,
)
    requires
        content_answer(shifts, path, start, end, content) matches Ok(v) && v.next_line == Some(
            next as int,
        ),
    ensures
        content_answer(shifts, path, start, end, content)->Ok_0.end_line + 1 == next,
        content_answer(later, path, Some(next), None, content) matches Ok(w) ==> w.start_line == next,
        content_answer(later, path, Some(next), None, content) matches Err(e) ==> e == over_budget(),
{
    lemma_split_nonempty(content);
    lemma_reach_bounds(split_nl(content), 0, total_of(content), READ_MAX_CHARS as nat);
}

} // verus!
