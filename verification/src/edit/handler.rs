//! Edit calls: from the arguments of a call and the content of the file to what is
//! written and what the caller is told.

use vstd::prelude::*;

use crate::edit::hunk::{cr_count, crlf_note, describes, flag, hunk_error, Hunk};
use crate::edit::read::FileRead;
use crate::edit::render::{
    capped, count_placed, hint_for, hint_text, outcome_text, placed_count, render_text,
    truncate_content,
};
use crate::edit::transaction::{
    edit_outcome, run_edit, FileOutcome, Mode, OutcomeView, MAX_HUNKS,
};
use crate::file_shared::{
    content_hash, has_cr, hash_of, lf_view, normalize_newlines, to_crlf, verify_expected_hash,
    with_crlf,
};
use crate::format::{dec, decimal_size};
use crate::json::{arr_at, lookup, member, opt_text, str_at, text_eq, texts, Json};
use crate::refusal::{plain_refusal, refuse, Refusal, RefusalView};

verus! {

/// An edit call whose arguments are in order.
#[derive(Debug, PartialEq, Eq)]
pub struct EditCall {
    pub path: String,
    pub expected_hash: Option<String>,
    pub hunks: Vec<Hunk>,
    pub notes: Vec<String>,
    pub mode: Mode,
    pub dry_run: bool,
}

/// What a call asks for.
#[derive(Debug, PartialEq, Eq)]
pub enum EditPlan {
    /// No hunks: the file is read, never written.
    Read { path: String },
    Edit(EditCall),
}

/// A text member that is there and not empty.
pub open spec fn filled(args: Json, key: Seq<char>) -> Option<Seq<char>> {
    match str_at(args, key) {
        Some(s) => if s.len() == 0 {
            None
        } else {
            Some(s)
        },
        None => None,
    }
}

/// A text member that is there and not empty.
pub fn filled_text<'a>(args: &'a Json, key: &str) -> (r: Option<&'a str>)
    ensures
        match r {
            Some(s) => filled(*args, key@) == Some(s@),
            None => filled(*args, key@) is None,
        },
{
    match args.get_str(key) {
        Some(s) => if s.is_empty() {
            None
        } else {
            Some(s)
        },
        None => None,
    }
}

/// The hunks of a call as they were sent.
pub open spec fn sent_hunks(args: Json) -> Seq<Json> {
    match arr_at(args, "hunks"@) {
        Some(a) => a,
        None => Seq::<Json>::empty(),
    }
}

/// The first of the items below `n` that is no hunk, and why.
pub open spec fn first_bad(items: Seq<Json>, n: int) -> Option<(int, Seq<char>)>
    decreases n,
{
    if n <= 0 {
        None
    } else {
        match first_bad(items, n - 1) {
            Some(p) => Some(p),
            None => match hunk_error(items[n - 1]) {
                Some(e) => Some((n - 1, e)),
                None => None,
            },
        }
    }
}

/// The mode that a call names; strict when it names none, nothing when it is unknown.
pub open spec fn mode_of(args: Json) -> Option<Mode> {
    match str_at(args, "mode"@) {
        None => Some(Mode::Strict),
        Some(m) => if m == "strict"@ {
            Some(Mode::Strict)
        } else if m == "partial"@ {
            Some(Mode::Partial)
        } else {
            None
        },
    }
}

/// Why a call is refused before any file is touched, if it is.
pub open spec fn call_error(args: Json) -> Option<Seq<char>> {
    let items = sent_hunks(args);
    if filled(args, "path"@) is None {
        Some("edit: missing 'path'"@)
    } else if items.len() == 0 {
        None
    } else if items.len() > MAX_HUNKS {
        Some("edit: too many hunks ("@ + dec(items.len()) + " > "@ + dec(MAX_HUNKS as nat) + ")"@)
    } else {
        match first_bad(items, items.len() as int) {
            Some(p) => Some("edit: hunks["@ + dec(p.0 as nat) + "]: "@ + p.1),
            None => match mode_of(args) {
                None => Some(
                    "edit: unknown mode '"@ + str_at(args, "mode"@)->0
                        + "' (expected 'strict' or 'partial')"@,
                ),
                Some(_) => None,
            },
        }
    }
}

/// How many fields of the hunks below `n` held a carriage return.
pub open spec fn cr_total(items: Seq<Json>, hunks: Seq<Hunk>, n: int) -> nat
    decreases n,
{
    if n <= 0 {
        0
    } else {
        cr_total(items, hunks, n - 1) + cr_count(items[n - 1], hunks[n - 1])
    }
}

/// `call` is the edit that the arguments ask for.
pub open spec fn asks_for(args: Json, call: EditCall) -> bool {
    let items = sent_hunks(args);
    &&& filled(args, "path"@) == Some(call.path@)
    &&& filled(args, "expected_hash"@) == opt_text(call.expected_hash)
    &&& call.hunks@.len() == items.len()
    &&& forall|i: int|
        0 <= i < items.len() ==> describes(items[i], #[trigger] call.hunks@[i])
    &&& texts(call.notes@) == Seq::new(
        cr_total(items, call.hunks@, items.len() as int),
        |i: int| crlf_note(),
    )
    &&& mode_of(args) == Some(call.mode)
    &&& call.dry_run == flag(args, "dry_run"@)
}

proof fn lemma_cr_total_same(items: Seq<Json>, a: Seq<Hunk>, b: Seq<Hunk>, n: int)
    requires
        forall|i: int| 0 <= i < n ==> a[i] == b[i],
    ensures
        cr_total(items, a, n) == cr_total(items, b, n),
    decreases n,
{
    if n > 0 {
        lemma_cr_total_same(items, a, b, n - 1);
    }
}

fn parse_hunks(items: &[Json]) -> (r: Result<(Vec<Hunk>, Vec<String>), (usize, String)>)
    ensures
        match r {
            Ok(p) => {
                &&& first_bad(items@, items@.len() as int) is None
                &&& p.0@.len() == items@.len()
                &&& forall|i: int|
                    0 <= i < items@.len() ==> describes(items@[i], #[trigger] p.0@[i])
                &&& texts(p.1@) == Seq::new(
                    cr_total(items@, p.0@, items@.len() as int),
                    |i: int| crlf_note(),
                )
            },
            Err(e) => first_bad(items@, items@.len() as int) == Some((e.0 as int, e.1@)),
        },
{
    let mut hunks: Vec<Hunk> = Vec::new();
    let mut notes: Vec<String> = Vec::new();
    let mut i: usize = 0;
    proof {
        assert(texts(notes@) =~= Seq::new(0, |i: int| crlf_note()));
    }
    while i < items.len()
        invariant
            i <= items@.len(),
            first_bad(items@, i as int) is None,
            hunks@.len() == i,
            forall|k: int| 0 <= k < i ==> describes(items@[k], #[trigger] hunks@[k]),
            texts(notes@) == Seq::new(
                cr_total(items@, hunks@, i as int),
                |k: int| crlf_note(),
            ),
        decreases items@.len() - i,
    {
        let ghost before = hunks@;
        let ghost noted = texts(notes@);
        match Hunk::parse(&items[i], &mut notes) {
            Ok(h) => {
                hunks.push(h);
                proof {
                    lemma_cr_total_same(items@, before, hunks@, i as int);
                    assert(texts(notes@) =~= Seq::new(
                        cr_total(items@, hunks@, i + 1),
                        |k: int| crlf_note(),
                    ));
                }
            },
            Err(e) => {
                proof {
                    lemma_first_bad_stays(items@, i + 1, items@.len() as int);
                }
                return Err((i, e));
            },
        }
        i = i + 1;
    }
    Ok((hunks, notes))
}

proof fn lemma_first_bad_stays(items: Seq<Json>, a: int, b: int)
    requires
        a <= b,
        first_bad(items, a) is Some,
    ensures
        first_bad(items, b) == first_bad(items, a),
    decreases b - a,
{
    if a < b {
        lemma_first_bad_stays(items, a, b - 1);
        assert(first_bad(items, b - 1) is Some);
        if b <= 0 {
            assert(first_bad(items, a) is None);
        }
    }
}

/// Reads the arguments of a call. Whatever is wrong with them is said before any
/// file is touched.
pub fn plan_edit(args: &Json) -> (r: Result<EditPlan, Refusal>)
    ensures
        match r {
            Err(e) => call_error(*args) is Some && e@ == plain_refusal(
                "PARSE_ERROR"@,
                call_error(*args)->0,
                None,
            ),
            Ok(EditPlan::Read { path }) => {
                &&& call_error(*args) is None
                &&& sent_hunks(*args).len() == 0
                &&& filled(*args, "path"@) == Some(path@)
            },
            Ok(EditPlan::Edit(call)) => {
                &&& call_error(*args) is None
                &&& sent_hunks(*args).len() > 0
                &&& asks_for(*args, call)
            },
        },
{
    let path: String = match filled_text(args, "path") {
        Some(p) => p.to_owned(),
        None => {
            return Err(refuse("PARSE_ERROR", "edit: missing 'path'".to_owned(), None));
        },
    };
    let items: &Vec<Json> = match args.get_array("hunks") {
        Some(a) => a,
        None => {
            return Ok(EditPlan::Read { path });
        },
    };
    let sent: usize = items.len();
    if sent == 0 {
        return Ok(EditPlan::Read { path });
    }
    if sent > MAX_HUNKS {
        let mut message: String = "edit: too many hunks (".to_owned();
        message.append(decimal_size(sent).as_str());
        message.append(" > ");
        message.append(decimal_size(MAX_HUNKS).as_str());
        message.append(")");
        return Err(refuse("PARSE_ERROR", message, None));
    }
    let (hunks, notes): (Vec<Hunk>, Vec<String>) = match parse_hunks(items.as_slice()) {
        Ok(p) => p,
        Err((i, e)) => {
            let mut message: String = "edit: hunks[".to_owned();
            message.append(decimal_size(i).as_str());
            message.append("]: ");
            message.append(e.as_str());
            return Err(refuse("PARSE_ERROR", message, None));
        },
    };
    let mode: Mode = match args.get_str("mode") {
        None => Mode::Strict,
        Some(m) => if text_eq(m, "strict") {
            Mode::Strict
        } else if text_eq(m, "partial") {
            Mode::Partial
        } else {
            let mut message: String = "edit: unknown mode '".to_owned();
            message.append(m);
            message.append("' (expected 'strict' or 'partial')");
            return Err(refuse("PARSE_ERROR", message, None));
        },
    };
    let expected_hash: Option<String> = match filled_text(args, "expected_hash") {
        Some(h) => Some(h.to_owned()),
        None => None,
    };
    let dry_run: bool = match args.get_bool("dry_run") {
        Some(b) => b,
        None => false,
    };
    Ok(EditPlan::Edit(EditCall { path, expected_hash, hunks, notes, mode, dry_run }))
}

/// What becomes of an edit.
#[derive(Debug, PartialEq, Eq)]
pub enum EditDecision {
    /// The file cannot be edited.
    Refuse(Refusal),
    /// The file changed since the read that the call refers to.
    Stale { text: String, hint: Option<String>, current_hash: String, current_content: String },
    /// The hunks do not apply; nothing is written.
    Reject { code: String, text: String, hint: Option<String>, outcome: FileOutcome },
    /// The new content is written.
    Commit {
        /// The content for the disk, with the line endings of the file.
        content: String,
        /// The content before, if the file was there.
        before: Option<String>,
        /// The fingerprint of the text that the hunks were located on, if the file was there.
        base_hash: Option<String>,
        text: String,
        /// Every hunk was applied, or only some.
        complete: bool,
        applied: usize,
        outcome: FileOutcome,
    },
}

/// What a decision says.
#[verifier::ext_equal]
pub enum DecisionView {
    Refuse(RefusalView),
    Stale { text: Seq<char>, hint: Option<Seq<char>>, current_hash: Seq<char>, current_content: Seq<char> },
    Reject { code: Seq<char>, text: Seq<char>, hint: Option<Seq<char>>, outcome: OutcomeView },
    Commit {
        content: Seq<char>,
        before: Option<Seq<char>>,
        base_hash: Option<Seq<char>>,
        text: Seq<char>,
        complete: bool,
        applied: nat,
        outcome: OutcomeView,
    },
}

impl View for EditDecision {
    type V = DecisionView;

    open spec fn view(&self) -> DecisionView {
        match *self {
            EditDecision::Refuse(r) => DecisionView::Refuse(r@),
            EditDecision::Stale { text, hint, current_hash, current_content } =>
                DecisionView::Stale {
                text: text@,
                hint: opt_text(hint),
                current_hash: current_hash@,
                current_content: current_content@,
            },
            EditDecision::Reject { code, text, hint, outcome } => DecisionView::Reject {
                code: code@,
                text: text@,
                hint: opt_text(hint),
                outcome: outcome@,
            },
            EditDecision::Commit { content, before, base_hash, text, complete, applied, outcome } =>
                DecisionView::Commit {
                content: content@,
                before: opt_text(before),
                base_hash: opt_text(base_hash),
                text: text@,
                complete,
                applied: applied as nat,
                outcome: outcome@,
            },
        }
    }
}

/// The text of an edit on a file that changed since it was read.
pub open spec fn stale_text(path: Seq<char>, content: Seq<char>) -> Seq<char> {
    "[ERROR] edit "@ + path
        + "\n  HASH_MISMATCH: content changed since the referenced read\n  current_hash: "@
        + hash_of(content) + "\n  current content:\n"@ + capped(content) + "\n"@
}

/// What is said to a file that is not there and hunks that need its content.
pub open spec fn create_hint() -> Seq<char> {
    "file does not exist — create it with prepend_file / append_file (or overwrite) hunks"@
}

/// The decision on a text: `raw` is the content on disk, if the file is there.
pub open spec fn text_decision(
    path: Seq<char>,
    hunks: Seq<Hunk>,
    notes: Seq<Seq<char>>,
    mode: Mode,
    raw: Option<Seq<char>>,
) -> DecisionView {
    let on_disk = match raw {
        Some(r) => r,
        None => Seq::<char>::empty(),
    };
    let content = lf_view(on_disk);
    let o = edit_outcome(content, hunks, notes, mode);
    match o.edited {
        None => DecisionView::Reject {
            code: o.code->0,
            text: outcome_text(path, o),
            hint: if raw is None && o.code->0 == "NO_MATCH"@ {
                Some(create_hint())
            } else {
                hint_text(o.code->0)
            },
            outcome: o,
        },
        Some(e) => DecisionView::Commit {
            content: if has_cr(on_disk) {
                with_crlf(e)
            } else {
                e
            },
            before: raw,
            base_hash: match raw {
                Some(_) => Some(hash_of(content)),
                None => None,
            },
            text: outcome_text(path, o),
            complete: o.code is None,
            applied: placed_count(o.reports, o.reports.len() as int),
            outcome: o,
        },
    }
}

/// The decision on an edit call, given what reading the file gave. A missing file
/// is edited as an empty one, unless the call refers to an earlier read of it.
pub open spec fn edit_decision(call: EditCall, file: FileRead) -> DecisionView {
    let path = call.path@;
    match file {
        FileRead::Missing => match call.expected_hash {
            None => text_decision(path, call.hunks@, texts(call.notes@), call.mode, None),
            Some(_) => DecisionView::Refuse(
                plain_refusal(
                    "FILE_NOT_FOUND"@,
                    "edit: "@ + path
                        + ": file not found (expected_hash provided but nothing to verify against)"@,
                    None,
                ),
            ),
        },
        FileRead::Failed(e) => DecisionView::Refuse(
            plain_refusal("READ_FAILED"@, "edit: cannot read "@ + path + ": "@ + e@, None),
        ),
        FileRead::NotUtf8 => DecisionView::Refuse(
            plain_refusal(
                "NOT_UTF8_TEXT"@,
                "edit: "@ + path + " is not valid UTF-8 text (treated as binary)"@,
                None,
            ),
        ),
        FileRead::Text(raw) => {
            let content = lf_view(raw@);
            match call.expected_hash {
                Some(h) if h@.len() > 0 && h@ != hash_of(content) => DecisionView::Stale {
                    text: stale_text(path, content),
                    hint: hint_text("HASH_MISMATCH"@),
                    current_hash: hash_of(content),
                    current_content: capped(content),
                },
                _ => text_decision(
                    path,
                    call.hunks@,
                    texts(call.notes@),
                    call.mode,
                    Some(raw@),
                ),
            }
        },
    }
}

/// A rejected outcome always names its reason.
pub proof fn lemma_rejection_has_code(
    content: Seq<char>,
    hunks: Seq<Hunk>,
    notes: Seq<Seq<char>>,
    mode: Mode,
)
    ensures
        edit_outcome(content, hunks, notes, mode).edited is None ==> edit_outcome(
            content,
            hunks,
            notes,
            mode,
        ).code is Some,
{
}

fn decide_text(path: &str, hunks: &[Hunk], notes: Vec<String>, mode: Mode, raw: Option<String>) -> (r:
    EditDecision)
    ensures
        r@ == text_decision(path@, hunks@, texts(notes@), mode, opt_text(raw)),
{
    let missing: bool = raw.is_none();
    let (content, was_crlf): (String, bool) = match &raw {
        Some(s) => normalize_newlines(s.as_str()),
        None => normalize_newlines(String::new().as_str()),
    };
    let ghost named = texts(notes@);
    let outcome: FileOutcome = run_edit(content.as_str(), hunks, notes, mode);
    let text: String = render_text(path, &outcome);
    proof {
        lemma_rejection_has_code(content@, hunks@, named, mode);
    }
    match &outcome.edited {
        None => {
            let code: String = match &outcome.code {
                Some(c) => c.clone(),
                None => "EDIT_REJECTED".to_owned(),
            };
            let hint: Option<String> = if missing && text_eq(code.as_str(), "NO_MATCH") {
                Some(
                    "file does not exist — create it with prepend_file / append_file (or overwrite) hunks".to_owned(),
                )
            } else {
                match hint_for(code.as_str()) {
                    Some(h) => Some(h.to_owned()),
                    None => None,
                }
            };
            EditDecision::Reject { code, text, hint, outcome }
        },
        Some(edited) => {
            let written: String = if was_crlf {
                to_crlf(edited.as_str())
            } else {
                edited.clone()
            };
            EditDecision::Commit {
                content: written,
                before: raw,
                base_hash: if missing {
                    None
                } else {
                    Some(content_hash(content.as_str()))
                },
                text,
                complete: outcome.code.is_none(),
                applied: count_placed(outcome.reports.as_slice()),
                outcome,
            }
        },
    }
}

/// Decides an edit call, given what reading the file gave.
pub fn exec_edit(call: EditCall, file: FileRead) -> (r: EditDecision)
    ensures
        r@ == edit_decision(call, file),
{
    let path: &str = call.path.as_str();
    match file {
        FileRead::Missing => {
            if call.expected_hash.is_some() {
                let mut message: String = "edit: ".to_owned();
                message.append(path);
                message.append(
                    ": file not found (expected_hash provided but nothing to verify against)",
                );
                return EditDecision::Refuse(refuse("FILE_NOT_FOUND", message, None));
            }
            decide_text(path, call.hunks.as_slice(), call.notes, call.mode, None)
        },
        FileRead::Failed(e) => {
            let mut message: String = "edit: cannot read ".to_owned();
            message.append(path);
            message.append(": ");
            message.append(e.as_str());
            EditDecision::Refuse(refuse("READ_FAILED", message, None))
        },
        FileRead::NotUtf8 => {
            let mut message: String = "edit: ".to_owned();
            message.append(path);
            message.append(" is not valid UTF-8 text (treated as binary)");
            EditDecision::Refuse(refuse("NOT_UTF8_TEXT", message, None))
        },
        FileRead::Text(raw) => {
            let (content, _cr): (String, bool) = normalize_newlines(raw.as_str());
            let expected: Option<&str> = match &call.expected_hash {
                Some(h) => Some(h.as_str()),
                None => None,
            };
            match verify_expected_hash(content.as_str(), expected) {
                Ok(_) => decide_text(
                    path,
                    call.hunks.as_slice(),
                    call.notes,
                    call.mode,
                    Some(raw),
                ),
                Err(stale) => {
                    let shown: String = truncate_content(content.as_str());
                    let mut text: String = "[ERROR] edit ".to_owned();
                    text.append(path);
                    text.append(
                        "\n  HASH_MISMATCH: content changed since the referenced read\n  current_hash: ",
                    );
                    text.append(stale.actual.as_str());
                    text.append("\n  current content:\n");
                    text.append(shown.as_str());
                    text.append("\n");
                    let hint: Option<String> = match hint_for("HASH_MISMATCH") {
                        Some(h) => Some(h.to_owned()),
                        None => None,
                    };
                    EditDecision::Stale {
                        text,
                        hint,
                        current_hash: stale.actual,
                        current_content: shown,
                    }
                },
            }
        },
    }
}

/// What is done about a decision.
#[derive(Debug, Clone, Copy, PartialEq, Eq, Structural)]
pub enum EditStep {
    /// The caller is told; nothing else is done.
    Answer,
    /// The call is kept to be confirmed; nothing is written.
    Keep,
    /// The file is written.
    Write,
}

/// What is done about a decision: only an edit that applies is written, and a dry run
/// never is.
pub open spec fn step_after(decision: DecisionView, dry_run: bool) -> EditStep {
    if !(decision is Commit) {
        EditStep::Answer
    } else if dry_run {
        EditStep::Keep
    } else {
        EditStep::Write
    }
}

/// Says what is done about a decision.
pub fn edit_step(decision: &EditDecision, dry_run: bool) -> (r: EditStep)
    ensures
        r == step_after(decision@, dry_run),
{
    match decision {
        EditDecision::Commit { .. } => if dry_run {
            EditStep::Keep
        } else {
            EditStep::Write
        },
        _ => EditStep::Answer,
    }
}

/// `out` holds what `pairs` holds, but no dry run and the fingerprint `hash`, or none.
pub open spec fn replays(pairs: Seq<(String, Json)>, hash: Option<Seq<char>>, out: Json) -> bool {
    &&& match hash {
        Some(h) => str_at(out, "expected_hash"@) == Some(h),
        None => member(out, "expected_hash"@) is None,
    }
    &&& member(out, "dry_run"@) is None
    &&& forall|key: Seq<char>|
        key != "expected_hash"@ && key != "dry_run"@ ==> #[trigger] member(out, key) == lookup(
            pairs,
            key,
        )
}

proof fn lemma_lookup_push(pairs: Seq<(String, Json)>, p: (String, Json), key: Seq<char>)
    ensures
        lookup(pairs.push(p), key) == (match lookup(pairs, key) {
            Some(v) => Some(v),
            None => if p.0@ == key {
                Some(p.1)
            } else {
                None
            },
        }),
    decreases pairs.len(),
{
    let all = pairs.push(p);
    if pairs.len() == 0 {
        assert(all.skip(1) =~= Seq::<(String, Json)>::empty());
        assert(lookup(all.skip(1), key) is None);
    } else {
        assert(all[0] == pairs[0]);
        assert(all.skip(1) =~= pairs.skip(1).push(p));
        lemma_lookup_push(pairs.skip(1), p, key);
    }
}

/// The arguments with which a checked edit is replayed: as they were sent, without
/// the dry run, and bound to the content that the dry run saw, if it saw any: a file that
/// was not there has no fingerprint to be checked.
pub fn replay_args(args: Json, hash: Option<String>) -> (out: Json)
    requires
        args is Obj,
    ensures
        replays(args->Obj_0@, opt_text(hash), out),
{
    let ghost pairs = args->Obj_0@;
    let mut rest: Vec<(String, Json)> = match args {
        Json::Obj(p) => p,
        _ => Vec::new(),
    };
    let mut kept: Vec<(String, Json)> = Vec::new();
    let ghost mut done: Seq<(String, Json)> = Seq::empty();
    while rest.len() > 0
        invariant
            pairs == done + rest@,
            forall|key: Seq<char>|
                #[trigger] lookup(kept@, key) == (if key == "expected_hash"@ || key == "dry_run"@ {
                    None
                } else {
                    lookup(done, key)
                }),
        decreases rest@.len(),
    {
        let ghost now = kept@;
        let ghost seen = done;
        let first: (String, Json) = rest.remove(0);
        proof {
            done = seen.push(first);
            assert(done + rest@ =~= pairs);
            assert forall|key: Seq<char>| #[trigger] lookup(done, key) == lookup(
                seen.push(first),
                key,
            ) by {}
        }
        let drop: bool = text_eq(first.0.as_str(), "expected_hash") || text_eq(
            first.0.as_str(),
            "dry_run",
        );
        if !drop {
            kept.push(first);
        }
        proof {
            assert forall|key: Seq<char>|
                #[trigger] lookup(kept@, key) == (if key == "expected_hash"@ || key == "dry_run"@ {
                    None
                } else {
                    lookup(done, key)
                }) by {
                lemma_lookup_push(seen, first, key);
                lemma_lookup_push(now, first, key);
                assert(lookup(now, key) == (if key == "expected_hash"@ || key == "dry_run"@ {
                    None
                } else {
                    lookup(seen, key)
                }));
            }
        }
    }
    proof {
        assert(done =~= pairs);
        reveal_strlit("dry_run");
        reveal_strlit("expected_hash");
        assert("dry_run"@.len() != "expected_hash"@.len());
        assert(lookup(kept@, "expected_hash"@) is None);
        assert(lookup(kept@, "dry_run"@) is None);
    }
    match hash {
        Some(h) => {
            let ghost now = kept@;
            let last: (String, Json) = ("expected_hash".to_owned(), Json::Str(h));
            kept.push(last);
            proof {
                assert forall|key: Seq<char>|
                    #[trigger] lookup(kept@, key) == (if key == "expected_hash"@ {
                        Some(last.1)
                    } else if key == "dry_run"@ {
                        None
                    } else {
                        lookup(pairs, key)
                    }) by {
                    lemma_lookup_push(now, last, key);
                    assert(lookup(now, key) == (if key == "expected_hash"@ || key == "dry_run"@ {
                        None
                    } else {
                        lookup(done, key)
                    }));
                }
                assert(lookup(kept@, "expected_hash"@) == Some(last.1));
                assert(lookup(kept@, "dry_run"@) is None);
            }
        },
        None => {},
    }
    let out: Json = Json::Obj(kept);
    proof {
        assert forall|key: Seq<char>|
            key != "expected_hash"@ && key != "dry_run"@ implies #[trigger] member(out, key)
            == lookup(pairs, key) by {
            assert(member(out, key) == lookup(kept@, key));
        }
    }
    out
}

} // verus!
