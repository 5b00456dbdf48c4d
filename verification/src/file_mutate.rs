//! Writing and deleting files.

use vstd::prelude::*;

use crate::file_shared::{
    content_hash, diff_counts, diff_text, hash_of, lf_view, normalize_newlines, unified_diff,
    verify_expected_hash,
};
use crate::format::{byte_len, byte_length, dec, decimal, decimal_big, decimal_size};
use crate::json::{bool_at, opt_text, str_at, text_eq, Json};
use crate::ledger::{last_hash, seen_hash, Ledger};
use crate::numbered::{count_lines, line_count};
use crate::outside::{added_total, first_change, line_steps, removed_total};
use crate::text::{blank, chars_of, is_blank, string_of, trim_end, trim_end_of};

verus! {

/// A write call.
#[derive(Debug, PartialEq, Eq)]
pub struct WriteCall {
    pub path: String,
    pub content: String,
    pub append: bool,
    pub dry_run: bool,
    pub expected_hash: String,
}

/// A text argument, empty when it is not there.
pub open spec fn text_arg(args: Json, key: Seq<char>) -> Seq<char> {
    match str_at(args, key) {
        Some(s) => s,
        None => ""@,
    }
}

/// A flag, off when it is not there.
pub open spec fn flag_arg(args: Json, key: Seq<char>) -> bool {
    match bool_at(args, key) {
        Some(b) => b,
        None => false,
    }
}

/// A text argument, empty when it is not there.
pub fn text_of_arg(args: &Json, key: &str) -> (r: String)
    ensures
        r@ == text_arg(*args, key@),
{
    match args.get_str(key) {
        Some(s) => s.to_owned(),
        None => "".to_owned(),
    }
}

/// A flag, off when it is not there.
pub fn flag_of_arg(args: &Json, key: &str) -> (r: bool)
    ensures
        r == flag_arg(*args, key@),
{
    match args.get_bool(key) {
        Some(b) => b,
        None => false,
    }
}

/// Arguments ask for a write to a path.
pub open spec fn asks_to_write(args: Json, path: Seq<char>, call: WriteCall) -> bool {
    &&& call.path@ == path
    &&& call.content@ == text_arg(args, "content"@)
    &&& call.append == flag_arg(args, "append"@)
    &&& call.dry_run == flag_arg(args, "dry_run"@)
    &&& call.expected_hash@ == text_arg(args, "expected_hash"@)
}

/// Reads the arguments of a write call for a path.
pub fn plan_write(args: &Json, path: String) -> (call: WriteCall)
    ensures
        asks_to_write(*args, path@, call),
{
    WriteCall {
        path,
        content: text_of_arg(args, "content"),
        append: flag_of_arg(args, "append"),
        dry_run: flag_of_arg(args, "dry_run"),
        expected_hash: text_of_arg(args, "expected_hash"),
    }
}

/// The line that sums a change up.
pub open spec fn change_line(
    prefix: Seq<char>,
    path: Seq<char>,
    added: nat,
    removed: nat,
    first_line: nat,
    label: Seq<char>,
) -> Seq<char> {
    "["@ + prefix + "] "@ + path + ":"@ + dec(first_line) + " +"@ + dec(added) + " -"@ + dec(removed)
        + " | "@ + label
}

/// Writes the line that sums a change up.
pub fn format_write_result(
    prefix: &str,
    path: &str,
    added: u128,
    removed: u128,
    first_line: u128,
    label: &str,
) -> (out: String)
    ensures
        out@ == change_line(
            prefix@,
            path@,
            added as nat,
            removed as nat,
            first_line as nat,
            label@,
        ),
{
    let mut out: String = "[".to_owned();
    out.append(prefix);
    out.append("] ");
    out.append(path);
    out.append(":");
    out.append(decimal_big(first_line).as_str());
    out.append(" +");
    out.append(decimal_big(added).as_str());
    out.append(" -");
    out.append(decimal_big(removed).as_str());
    out.append(" | ");
    out.append(label);
    out
}

/// The kinds of failed writes that get an advice of their own.
#[derive(Debug, Clone, Copy, PartialEq, Eq, Structural)]
pub enum WriteFailure {
    NotFound,
    PermissionDenied,
    IsADirectory,
    StorageFull,
    Other,
}

/// What to do about a failed write.
pub open spec fn failure_hint(kind: WriteFailure) -> Seq<char> {
    match kind {
        WriteFailure::NotFound =>
            "The parent directory may not exist. Use exec with argv [\"ls\", \"-la\"] to inspect it, and create the directory first."@,
        WriteFailure::PermissionDenied =>
            "The target is not writable (read-only attribute or missing permissions). Check with exec argv [\"ls\", \"-la\"], and remove the read-only flag if needed."@,
        WriteFailure::IsADirectory =>
            "The target path is a directory, not a file. Use delete first, or write to a file path instead."@,
        WriteFailure::StorageFull =>
            "The disk is full. Free up space or choose another location."@,
        WriteFailure::Other =>
            "Check disk space, file locks (another process may hold the file), and permissions."@,
    }
}

/// The message for a write that failed.
pub fn write_error(path: &str, kind: WriteFailure, error: &str) -> (out: String)
    ensures
        out@ == "[ERROR] Cannot write "@ + path@ + ": "@ + error@ + " [HINT] "@ + failure_hint(kind),
{
    let hint: &str = match kind {
        WriteFailure::NotFound =>
            "The parent directory may not exist. Use exec with argv [\"ls\", \"-la\"] to inspect it, and create the directory first.",
        WriteFailure::PermissionDenied =>
            "The target is not writable (read-only attribute or missing permissions). Check with exec argv [\"ls\", \"-la\"], and remove the read-only flag if needed.",
        WriteFailure::IsADirectory =>
            "The target path is a directory, not a file. Use delete first, or write to a file path instead.",
        WriteFailure::StorageFull => "The disk is full. Free up space or choose another location.",
        WriteFailure::Other =>
            "Check disk space, file locks (another process may hold the file), and permissions.",
    };
    let mut out: String = "[ERROR] Cannot write ".to_owned();
    out.append(path);
    out.append(": ");
    out.append(error);
    out.append(" [HINT] ");
    out.append(hint);
    out
}

/// What becomes of a write.
#[derive(Debug, PartialEq, Eq)]
pub enum WriteDecision {
    /// The content on disk is not the one that the call or the ledger knows of.
    Stale {
        expected: String,
        actual: String,
        /// The call named the fingerprint itself.
        named: bool,
    },
    /// Nothing is written; this is what would change.
    Preview { text: String, base_hash: String },
    /// The file is written, and holds `after` then.
    Write { after: String, text: String, diff: Option<String> },
}

/// What a decision says.
#[verifier::ext_equal]
pub enum WriteView {
    Stale { expected: Seq<char>, actual: Seq<char>, named: bool },
    Preview { text: Seq<char>, base_hash: Seq<char> },
    Write { after: Seq<char>, text: Seq<char>, diff: Option<Seq<char>> },
}

impl View for WriteDecision {
    type V = WriteView;

    open spec fn view(&self) -> WriteView {
        match *self {
            WriteDecision::Stale { expected, actual, named } => WriteView::Stale {
                expected: expected@,
                actual: actual@,
                named,
            },
            WriteDecision::Preview { text, base_hash } => WriteView::Preview {
                text: text@,
                base_hash: base_hash@,
            },
            WriteDecision::Write { after, text, diff } => WriteView::Write {
                after: after@,
                text: text@,
                diff: opt_text(diff),
            },
        }
    }
}

/// The content of a file, empty when it is not there.
pub open spec fn content_or_empty(file: Option<Seq<char>>) -> Seq<char> {
    match file {
        Some(c) => c,
        None => Seq::<char>::empty(),
    }
}

/// The newline view that a write leaves.
pub open spec fn written_view(call: WriteCall, file: Option<Seq<char>>) -> Seq<char> {
    if call.append {
        lf_view(lf_view(content_or_empty(file)) + call.content@)
    } else {
        lf_view(call.content@)
    }
}

/// The change between two texts in one line.
pub open spec fn stats_line(
    prefix: Seq<char>,
    path: Seq<char>,
    before: Seq<char>,
    after: Seq<char>,
) -> Seq<char> {
    let steps = line_steps(before, after);
    change_line(
        prefix,
        path,
        added_total(steps),
        removed_total(steps),
        first_change(steps) as nat,
        "write"@,
    )
}

/// The size of a content in words.
pub open spec fn size_text(content: Seq<char>) -> Seq<char> {
    dec(byte_len(content)) + " bytes, "@ + dec(line_count(content)) + " lines"@
}

/// The text of a preview.
pub open spec fn preview_text(call: WriteCall, file: Option<Seq<char>>) -> Seq<char> {
    let before = lf_view(content_or_empty(file));
    let after = written_view(call, file);
    let diff = diff_text(before, after, call.path@);
    if diff.len() == 0 {
        "[DRY RUN] "@ + call.path@ + " — "@ + size_text(call.content@)
            + " (no changes would be made)"@
    } else {
        stats_line("DRY RUN"@, call.path@, before, after) + "\n\n"@ + trim_end(diff)
    }
}

/// The text of a write that was made.
pub open spec fn written_text(call: WriteCall, file: Option<Seq<char>>) -> Seq<char> {
    let path = call.path@;
    let content = call.content@;
    match file {
        Some(before) => if call.append {
            change_line("OK"@, path, line_count(content), 0, line_count(before) + 1, "write"@)
        } else if lf_view(before) == lf_view(content) {
            "[OK] "@ + path + " — "@ + size_text(content) + " (no changes)"@
        } else {
            stats_line("OK"@, path, lf_view(before), lf_view(content))
        },
        None => if call.append {
            "[OK] "@ + path + " — appended "@ + size_text(content) + " (new file)"@
        } else {
            "[OK] "@ + path + " — "@ + size_text(content) + " (new file)"@
        },
    }
}

/// The decision on a write, given what the file holds and the fingerprint that the
/// ledger has for it.
pub open spec fn write_decision(
    known: Option<Seq<char>>,
    call: WriteCall,
    file: Option<Seq<char>>,
) -> WriteView {
    let before = lf_view(content_or_empty(file));
    let diff = diff_text(before, written_view(call, file), call.path@);
    if call.expected_hash@.len() > 0 && call.expected_hash@ != hash_of(before) {
        WriteView::Stale { expected: call.expected_hash@, actual: hash_of(before), named: true }
    } else if call.expected_hash@.len() == 0 && known is Some && known->0 != hash_of(before) {
        WriteView::Stale { expected: known->0, actual: hash_of(before), named: false }
    } else if call.dry_run {
        WriteView::Preview { text: preview_text(call, file), base_hash: hash_of(before) }
    } else {
        WriteView::Write {
            after: if call.append {
                content_or_empty(file) + call.content@
            } else {
                call.content@
            },
            text: written_text(call, file),
            diff: if is_blank(diff) {
                None
            } else {
                Some(trim_end(diff))
            },
        }
    }
}

fn trimmed(s: &str) -> (out: String)
    ensures
        out@ == trim_end(s@),
{
    let c: Vec<char> = chars_of(s);
    let t: Vec<char> = trim_end_of(c.as_slice());
    string_of(t.as_slice())
}

fn describe_size(content: &str) -> (out: String)
    ensures
        out@ == size_text(content@),
{
    let c: Vec<char> = chars_of(content);
    let mut out: String = decimal_big(byte_length(c.as_slice()));
    out.append(" bytes, ");
    out.append(decimal_size(count_lines(content)).as_str());
    out.append(" lines");
    out
}

fn describe_change(prefix: &str, path: &str, before: &str, after: &str) -> (out: String)
    ensures
        out@ == stats_line(prefix@, path@, before@, after@),
{
    let (added, removed, first_line): (u128, u128, u128) = diff_counts(before, after);
    format_write_result(prefix, path, added, removed, first_line, "write")
}

fn describe_written(call: &WriteCall, file: &Option<String>) -> (out: String)
    ensures
        out@ == written_text(*call, opt_text(*file)),
{
    let path: &str = call.path.as_str();
    let content: &str = call.content.as_str();
    match file {
        Some(before) => {
            if call.append {
                let lines: u128 = count_lines(before.as_str()) as u128;
                let added: u128 = count_lines(content) as u128;
                return format_write_result("OK", path, added, 0, lines + 1, "write");
            }
            let (b, _cr): (String, bool) = normalize_newlines(before.as_str());
            let (a, _cr2): (String, bool) = normalize_newlines(content);
            if text_eq(b.as_str(), a.as_str()) {
                let mut out: String = "[OK] ".to_owned();
                out.append(path);
                out.append(" — ");
                out.append(describe_size(content).as_str());
                out.append(" (no changes)");
                return out;
            }
            describe_change("OK", path, b.as_str(), a.as_str())
        },
        None => {
            let mut out: String = "[OK] ".to_owned();
            out.append(path);
            if call.append {
                out.append(" — appended ");
            } else {
                out.append(" — ");
            }
            out.append(describe_size(content).as_str());
            out.append(" (new file)");
            out
        },
    }
}

/// Decides a write, given what the file holds: `None` when it is not there or is no
/// text.
pub fn exec_write_file(ledger: &Ledger, call: &WriteCall, file: Option<String>) -> (r: WriteDecision)
    ensures
        r@ == write_decision(seen_hash(ledger@, call.path@), *call, opt_text(file)),
{
    let raw: String = match &file {
        Some(s) => s.clone(),
        None => String::new(),
    };
    let (before, _cr): (String, bool) = normalize_newlines(raw.as_str());
    let current: String = content_hash(before.as_str());
    if call.expected_hash.as_str().is_empty() {
        if let Some(known) = last_hash(ledger, call.path.as_str()) {
            if !text_eq(known.as_str(), current.as_str()) {
                return WriteDecision::Stale { expected: known, actual: current, named: false };
            }
        }
    } else if let Err(stale) = verify_expected_hash(
        before.as_str(),
        Some(call.expected_hash.as_str()),
    ) {
        return WriteDecision::Stale {
            expected: stale.expected,
            actual: stale.actual,
            named: true,
        };
    }
    let preview: String = if call.append {
        let mut t: String = before.clone();
        t.append(call.content.as_str());
        t
    } else {
        call.content.clone()
    };
    let (after, _cr2): (String, bool) = normalize_newlines(preview.as_str());
    let diff: String = unified_diff(before.as_str(), after.as_str(), call.path.as_str());
    if call.dry_run {
        let text: String = if diff.as_str().is_empty() {
            let mut t: String = "[DRY RUN] ".to_owned();
            t.append(call.path.as_str());
            t.append(" — ");
            t.append(describe_size(call.content.as_str()).as_str());
            t.append(" (no changes would be made)");
            t
        } else {
            let mut t: String = describe_change(
                "DRY RUN",
                call.path.as_str(),
                before.as_str(),
                after.as_str(),
            );
            t.append("\n\n");
            t.append(trimmed(diff.as_str()).as_str());
            t
        };
        return WriteDecision::Preview { text, base_hash: current };
    }
    let shown: Option<String> = {
        let d: Vec<char> = chars_of(diff.as_str());
        if blank(d.as_slice()) {
            None
        } else {
            Some(trimmed(diff.as_str()))
        }
    };
    let text: String = describe_written(call, &file);
    let result: String = if call.append {
        let mut t: String = raw;
        t.append(call.content.as_str());
        t
    } else {
        call.content.clone()
    };
    WriteDecision::Write { after: result, text, diff: shown }
}

/// How a preview is confirmed.
pub open spec fn confirm_text(id: Seq<char>) -> Seq<char> {
    "pending_id="@ + id + " — confirm with confirm_apply {\"pending_id\":\""@ + id
        + "\",\"action\":\"apply\"}"@
}

/// Says how a preview is confirmed.
pub fn confirm_hint(id: &str) -> (out: String)
    ensures
        out@ == confirm_text(id@),
{
    let mut out: String = "pending_id=".to_owned();
    out.append(id);
    out.append(" — confirm with confirm_apply {\"pending_id\":\"");
    out.append(id);
    out.append("\",\"action\":\"apply\"}");
    out
}

/// Why a file is not deleted.
#[derive(Debug, PartialEq, Eq)]
pub enum DeleteRefusal {
    /// There is no such file.
    NotFound { message: String },
    /// The content is not the one that the ledger knows of.
    Stale { expected: String, actual: String },
}

/// Whether a file may be deleted: it is there, and where its text can be read it is
/// the text that the ledger knows of.
pub fn check_delete(ledger: &Ledger, path: &str, exists: bool, content: Option<&str>) -> (r: Result<
    (),
    DeleteRefusal,
>)
    ensures
        match r {
            Ok(_) => exists && (content is None || seen_hash(ledger@, path@) is None || seen_hash(
                ledger@,
                path@,
            ) == Some(hash_of(lf_view(content->0@)))),
            Err(DeleteRefusal::NotFound { message }) => !exists && message@ == path@
                + " does not exist"@,
            Err(DeleteRefusal::Stale { expected, actual }) => {
                &&& exists
                &&& content is Some
                &&& seen_hash(ledger@, path@) == Some(expected@)
                &&& actual@ == hash_of(lf_view(content->0@))
                &&& expected@ != actual@
            },
        },
{
    if !exists {
        let mut message: String = path.to_owned();
        message.append(" does not exist");
        return Err(DeleteRefusal::NotFound { message });
    }
    if let Some(raw) = content {
        let (lf, _cr): (String, bool) = normalize_newlines(raw);
        if let Some(known) = last_hash(ledger, path) {
            let actual: String = content_hash(lf.as_str());
            if !text_eq(known.as_str(), actual.as_str()) {
                return Err(DeleteRefusal::Stale { expected: known, actual });
            }
        }
    }
    Ok(())
}

/// A name with what separates path components replaced.
pub open spec fn flat_name(name: Seq<char>) -> Seq<char>
    decreases name.len(),
{
    if name.len() == 0 {
        Seq::<char>::empty()
    } else {
        flat_name(name.drop_last()) + (if name.last() == '/' || name.last() == '\\' || name.last()
            == ':' {
            "__"@
        } else {
            seq![name.last()]
        })
    }
}

/// The name of a deleted file in the trash: its relative path in one component, and
/// the time of deletion.
pub fn trash_name(rel: &str, seconds: u64) -> (out: String)
    ensures
        out@ == flat_name(rel@) + "."@ + dec(seconds as nat),
{
    let c: Vec<char> = chars_of(rel);
    let mut flat: Vec<char> = Vec::new();
    let mut i: usize = 0;
    proof {
        reveal_strlit("__");
        assert(c@.take(0) =~= Seq::<char>::empty());
        assert(flat@ =~= flat_name(c@.take(0)));
    }
    while i < c.len()
        invariant
            i <= c@.len(),
            flat@ == flat_name(c@.take(i as int)),
            "__"@ == seq!['_', '_'],
        decreases c@.len() - i,
    {
        let ghost so_far = flat@;
        proof {
            assert(c@.take(i + 1).drop_last() =~= c@.take(i as int));
            assert(c@.take(i + 1).last() == c@[i as int]);
        }
        if c[i] == '/' || c[i] == '\\' || c[i] == ':' {
            flat.push('_');
            flat.push('_');
            proof {
                assert(flat@ =~= so_far + "__"@);
            }
        } else {
            flat.push(c[i]);
            proof {
                assert(flat@ =~= so_far + seq![c@[i as int]]);
            }
        }
        i = i + 1;
    }
    proof {
        assert(c@.take(c@.len() as int) =~= c@);
    }
    let mut out: String = string_of(flat.as_slice());
    out.append(".");
    out.append(decimal(seconds).as_str());
    out
}

/// What was tried on the way to the trash, and how it ended.
#[derive(Debug, PartialEq, Eq)]
pub enum TrashEvent {
    Renamed,
    RenameFailed { is_dir: bool },
    Copied,
    CopyFailed(String),
    Removed,
    RemoveFailed(String),
}

/// The answer to a delete.
#[derive(Debug, PartialEq, Eq)]
pub struct DeleteReply {
    pub ok: bool,
    pub code: Option<String>,
    pub message: String,
    pub hint: Option<String>,
    /// The file is gone, and is recorded as deleted.
    pub gone: bool,
}

/// What comes next on the way to the trash.
#[derive(Debug, PartialEq, Eq)]
pub enum TrashStep {
    Copy,
    Remove,
    Done(DeleteReply),
}

/// What a step says.
#[verifier::ext_equal]
pub enum StepView {
    Copy,
    Remove,
    Done { ok: bool, code: Option<Seq<char>>, message: Seq<char>, hint: Option<Seq<char>>, gone: bool },
}

impl View for TrashStep {
    type V = StepView;

    open spec fn view(&self) -> StepView {
        match *self {
            TrashStep::Copy => StepView::Copy,
            TrashStep::Remove => StepView::Remove,
            TrashStep::Done(r) => StepView::Done {
                ok: r.ok,
                code: opt_text(r.code),
                message: r.message@,
                hint: opt_text(r.hint),
                gone: r.gone,
            },
        }
    }
}

/// What follows an event on the way to the trash: a rename that fails for a file is
/// made up for by a copy and a removal.
pub open spec fn after_event(
    path: Seq<char>,
    name: Seq<char>,
    trash_path: Seq<char>,
    event: TrashEvent,
) -> StepView {
    match event {
        TrashEvent::Renamed => StepView::Done {
            ok: true,
            code: None,
            message: "Moved to trash: .deepx/trash/"@ + name,
            hint: Some(
                "Restore with exec argv [\"mv\", \""@ + trash_path + "\", \""@ + path + "\"]"@,
            ),
            gone: true,
        },
        TrashEvent::RenameFailed { is_dir } => if is_dir {
            StepView::Done {
                ok: false,
                code: Some("CROSS_DEVICE_DIR"@),
                message: "Cannot trash directory across devices"@,
                hint: Some(
                    "Use exec with argv [\"rm\", \"-rf\", \""@ + path
                        + "\"] for cross-device deletion."@,
                ),
                gone: false,
            }
        } else {
            StepView::Copy
        },
        TrashEvent::Copied => StepView::Remove,
        TrashEvent::CopyFailed(e) => StepView::Done {
            ok: false,
            code: Some("COPY_FAILED"@),
            message: e@,
            hint: Some("Check permissions and disk space."@),
            gone: false,
        },
        TrashEvent::Removed => StepView::Done {
            ok: true,
            code: None,
            message: "Moved to trash (cross-device): .deepx/trash/"@ + name,
            hint: Some(
                "Restore with exec argv [\"cp\", \""@ + trash_path + "\", \""@ + path + "\"]"@,
            ),
            gone: true,
        },
        TrashEvent::RemoveFailed(e) => StepView::Done {
            ok: true,
            code: None,
            message: "Copied to trash, original still at "@ + path,
            hint: Some("Copied to trash but could not remove original: "@ + e@),
            gone: false,
        },
    }
}

/// Decides what follows an event on the way to the trash.
pub fn trash_step(path: &str, name: &str, trash_path: &str, event: TrashEvent) -> (r: TrashStep)
    ensures
        r@ == after_event(path@, name@, trash_path@, event),
{
    match event {
        TrashEvent::Renamed => {
            let mut message: String = "Moved to trash: .deepx/trash/".to_owned();
            message.append(name);
            let mut hint: String = "Restore with exec argv [\"mv\", \"".to_owned();
            hint.append(trash_path);
            hint.append("\", \"");
            hint.append(path);
            hint.append("\"]");
            TrashStep::Done(
                DeleteReply { ok: true, code: None, message, hint: Some(hint), gone: true },
            )
        },
        TrashEvent::RenameFailed { is_dir } => {
            if !is_dir {
                return TrashStep::Copy;
            }
            let mut hint: String = "Use exec with argv [\"rm\", \"-rf\", \"".to_owned();
            hint.append(path);
            hint.append("\"] for cross-device deletion.");
            TrashStep::Done(
                DeleteReply {
                    ok: false,
                    code: Some("CROSS_DEVICE_DIR".to_owned()),
                    message: "Cannot trash directory across devices".to_owned(),
                    hint: Some(hint),
                    gone: false,
                },
            )
        },
        TrashEvent::Copied => TrashStep::Remove,
        TrashEvent::CopyFailed(e) => TrashStep::Done(
            DeleteReply {
                ok: false,
                code: Some("COPY_FAILED".to_owned()),
                message: e,
                hint: Some("Check permissions and disk space.".to_owned()),
                gone: false,
            },
        ),
        TrashEvent::Removed => {
            let mut message: String = "Moved to trash (cross-device): .deepx/trash/".to_owned();
            message.append(name);
            let mut hint: String = "Restore with exec argv [\"cp\", \"".to_owned();
            hint.append(trash_path);
            hint.append("\", \"");
            hint.append(path);
            hint.append("\"]");
            TrashStep::Done(
                DeleteReply { ok: true, code: None, message, hint: Some(hint), gone: true },
            )
        },
        TrashEvent::RemoveFailed(e) => {
            let mut message: String = "Copied to trash, original still at ".to_owned();
            message.append(path);
            let mut hint: String = "Copied to trash but could not remove original: ".to_owned();
            hint.append(e.as_str());
            TrashStep::Done(
                DeleteReply { ok: true, code: None, message, hint: Some(hint), gone: false },
            )
        },
    }
}

/// A file that was changed outside the tools is not written over by a call that
/// names no fingerprint.
pub proof fn outside_changes_are_not_overwritten(
    known: Seq<char>,
    call: WriteCall,
    file: Option<Seq<char>>,
)
    requires
        call.expected_hash@.len() == 0,
        known != hash_of(lf_view(content_or_empty(file))),
    ensures
        write_decision(Some(known), call, file) is Stale,
{
}

/// A dry run writes nothing.
pub proof fn dry_run_writes_nothing(
    known: Option<Seq<char>>,
    call: WriteCall,
    file: Option<Seq<char>>,
)
    requires
        call.dry_run,
    ensures
        !(write_decision(known, call, file) is Write),
{
}

/// A dry run that is confirmed does what it showed: replayed on the same file, bound to
/// the fingerprint that the dry run saw and without the dry run, it is written, and leaves
/// what the call itself would have left.
pub proof fn replayed_write_does_what_the_dry_run_showed(
    known: Option<Seq<char>>,
    later: Option<Seq<char>>,
    call: WriteCall,
    again: WriteCall,
    file: Option<Seq<char>>,
)
    requires
        call.dry_run,
        write_decision(known, call, file) matches WriteView::Preview { base_hash, .. }
            && base_hash.len() > 0 && again.expected_hash@ == base_hash,
        again.path@ == call.path@,
        again.content@ == call.content@,
        again.append == call.append,
        !again.dry_run,
    ensures
        write_decision(later, again, file) matches WriteView::Write { after, .. } && after == (
        if call.append {
            content_or_empty(file) + call.content@
        } else {
            call.content@
        }),
{
}

/// What a write leaves is the content as it was given, and an append leaves what was
/// there in front of it.
pub proof fn content_is_written_verbatim(
    known: Option<Seq<char>>,
    call: WriteCall,
    file: Option<Seq<char>>,
)
    ensures
        write_decision(known, call, file) matches WriteView::Write { after, .. } ==> after == (
        if call.append {
            content_or_empty(file) + call.content@
        } else {
            call.content@
        }),
{
}

/// A file on its way to the trash is only ever recorded as deleted once it is gone
/// from its place.
pub proof fn only_a_file_that_is_gone_counts_as_deleted(
    path: Seq<char>,
    name: Seq<char>,
    trash_path: Seq<char>,
    event: TrashEvent,
)
    ensures
        after_event(path, name, trash_path, event) matches StepView::Done { gone, .. } ==> (gone
            <==> event is Renamed || event is Removed),
{
}

} // verus!
