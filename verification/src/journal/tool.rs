//! The journal as a tool and on the command line.

use vstd::prelude::*;

use crate::format::{dec, decimal_size};
use crate::journal::log::{
    export_patches, patches_of, query, replay_file, replayed, selected, step_views, Journal,
    JournalView, Step, StepView,
};
use crate::json::{opt_text, str_at, text_eq, texts, u64_at, Json};
use crate::outside::{debug_format, debug_text};
use crate::refusal::{plain_refusal, refuse, Refusal, RefusalView};
use crate::text::chars_of;

verus! {

/// A file in a directory.
pub open spec fn inside(dir: Seq<char>, name: Seq<char>) -> Seq<char> {
    if dir.len() == 0 || dir.last() == '/' {
        dir + name
    } else {
        dir + "/"@ + name
    }
}

fn path_inside(dir: &str, name: &str) -> (out: String)
    ensures
        out@ == inside(dir@, name@),
{
    let s: Vec<char> = chars_of(dir);
    let n: usize = s.len();
    let mut out: String = dir.to_owned();
    if n > 0 && s[n - 1] != '/' {
        out.append("/");
    }
    out.append(name);
    out
}

/// Where the journal is: the directory that is set, else one in the data directory.
pub fn journal_root(set: Option<&str>, data_dir: &str) -> (out: String)
    ensures
        out@ == match set {
            Some(d) => if d@.len() > 0 {
                d@
            } else {
                inside(data_dir@, "journal"@)
            },
            None => inside(data_dir@, "journal"@),
        },
{
    match set {
        Some(d) => {
            if !d.is_empty() {
                return d.to_owned();
            }
        },
        None => {},
    }
    path_inside(data_dir, "journal")
}

/// Where the changes are.
pub fn steps_path(root: &str) -> (out: String)
    ensures
        out@ == inside(root@, "steps.jsonl"@),
{
    path_inside(root, "steps.jsonl")
}

/// Where the texts are.
pub fn blobs_dir(root: &str) -> (out: String)
    ensures
        out@ == inside(root@, "blobs"@),
{
    path_inside(root, "blobs")
}

/// Where the text under a hash is.
pub fn blob_path(root: &str, hash: &str) -> (out: String)
    ensures
        out@ == inside(inside(root@, "blobs"@), hash@),
{
    path_inside(blobs_dir(root).as_str(), hash)
}

/// The session that changes are recorded for; empty when there is none.
pub fn active_session(current: Option<&str>) -> (out: String)
    ensures
        out@ == match current {
            Some(s) => s@,
            None => Seq::<char>::empty(),
        },
{
    match current {
        Some(s) => s.to_owned(),
        None => String::new(),
    }
}

/// What a call answers.
#[derive(Debug, PartialEq, Eq)]
pub enum JournalReply {
    /// The changes that were asked for.
    Steps { action: String, format: String, steps: Vec<Step>, text: String },
    /// The same as patches.
    Patches { patches: String, text: String },
    /// A file as it was; nothing when it did not exist.
    File { file: String, at: Option<u64>, out: Option<String>, content: Option<String>, text: String },
}

/// What an answer says.
#[verifier::ext_equal]
pub enum ReplyView {
    Steps { action: Seq<char>, format: Seq<char>, steps: Seq<StepView>, text: Seq<char> },
    Patches { patches: Seq<char>, text: Seq<char> },
    File {
        file: Seq<char>,
        at: Option<u64>,
        out: Option<Seq<char>>,
        content: Option<Seq<char>>,
        text: Seq<char>,
    },
}

impl View for JournalReply {
    type V = ReplyView;

    open spec fn view(&self) -> ReplyView {
        match self {
            JournalReply::Steps { action, format, steps, text } => ReplyView::Steps {
                action: action@,
                format: format@,
                steps: step_views(steps@),
                text: text@,
            },
            JournalReply::Patches { patches, text } => ReplyView::Patches {
                patches: patches@,
                text: text@,
            },
            JournalReply::File { file, at, out, content, text } => ReplyView::File {
                file: file@,
                at: *at,
                out: opt_text(*out),
                content: opt_text(*content),
                text: text@,
            },
        }
    }
}

/// A text argument, or a default.
pub open spec fn text_or(args: Json, key: Seq<char>, default: Seq<char>) -> Seq<char> {
    match str_at(args, key) {
        Some(s) => s,
        None => default,
    }
}

fn text_from<'a>(args: &'a Json, key: &str, default: &'a str) -> (r: &'a str)
    ensures
        r@ == text_or(*args, key@, default@),
{
    match args.get_str(key) {
        Some(s) => s,
        None => default,
    }
}

/// The line about a list of changes.
pub open spec fn count_line(action: Seq<char>, n: nat) -> Seq<char> {
    if n == 0 {
        "[OK] journal "@ + action + ": no matching steps\n"@
    } else {
        "[OK] journal "@ + action + ": "@ + dec(n) + " step(s)\n"@
    }
}

/// The answer to a query or an export.
pub open spec fn listing_reply(j: JournalView, args: Json, action: Seq<char>) -> ReplyView {
    let session = text_or(args, "session"@, ""@);
    let format = text_or(args, "format"@, "json"@);
    let steps = selected(
        j.steps,
        if session.len() > 0 {
            Some(session)
        } else {
            None
        },
        str_at(args, "file"@),
        u64_at(args, "since"@),
    );
    if action == "export"@ && format == "patches"@ {
        let patches = patches_of(steps, j.blobs);
        ReplyView::Patches {
            patches,
            text: if patches.len() == 0 {
                "[OK] journal export: no patches\n"@
            } else {
                patches
            },
        }
    } else {
        ReplyView::Steps { action, format, steps, text: count_line(action, steps.len()) }
    }
}

/// The answer to a call of the journal.
pub open spec fn journal_reply(j: JournalView, args: Json) -> Result<ReplyView, RefusalView> {
    let action = text_or(args, "action"@, "query"@);
    if action == "query"@ || action == "export"@ {
        Ok(listing_reply(j, args, action))
    } else if action == "replay"@ {
        match str_at(args, "file"@) {
            None => Err(plain_refusal("MISSING_FILE"@, "journal replay requires 'file'"@, None)),
            Some(file) => if file.len() == 0 {
                Err(plain_refusal("MISSING_FILE"@, "journal replay requires 'file'"@, None))
            } else {
                match replayed(j, file, u64_at(args, "at"@)) {
                    Err(e) => Err(plain_refusal("REPLAY_FAILED"@, e, None)),
                    Ok(content) => Ok(
                        ReplyView::File {
                            file,
                            at: u64_at(args, "at"@),
                            out: str_at(args, "out"@),
                            content,
                            text: match content {
                                Some(t) => t,
                                None => "[OK] journal replay: "@ + file
                                    + " did not exist at requested sequence\n"@,
                            },
                        },
                    ),
                }
            },
        }
    } else {
        Err(
            plain_refusal(
                "INVALID_ACTION"@,
                "invalid journal action "@ + debug_text(action)
                    + " — use query, replay, or export"@,
                None,
            ),
        )
    }
}

fn list_changes(j: &Journal, args: &Json, action: &str) -> (r: JournalReply)
    ensures
        r@ == listing_reply(j@, *args, action@),
{
    let session: &str = text_from(args, "session", "");
    let format: &str = text_from(args, "format", "json");
    let wanted: Option<&str> = if session.is_empty() {
        None
    } else {
        Some(session)
    };
    let steps: Vec<Step> = query(j, wanted, args.get_str("file"), args.get_u64("since"));
    if text_eq(action, "export") && text_eq(format, "patches") {
        let patches: String = export_patches(j, steps.as_slice());
        let text: String = if patches.as_str().is_empty() {
            "[OK] journal export: no patches\n".to_owned()
        } else {
            patches.clone()
        };
        return JournalReply::Patches { patches, text };
    }
    let mut text: String = "[OK] journal ".to_owned();
    text.append(action);
    if steps.len() == 0 {
        text.append(": no matching steps\n");
    } else {
        text.append(": ");
        text.append(decimal_size(steps.len()).as_str());
        text.append(" step(s)\n");
    }
    proof {
        assert(step_views(steps@).len() == steps@.len());
    }
    JournalReply::Steps { action: action.to_owned(), format: format.to_owned(), steps, text }
}

/// Answers a call of the journal. Where a file is asked for with a place to write it
/// to, the caller writes it there.
pub fn exec_journal(j: &Journal, args: &Json) -> (r: Result<JournalReply, Refusal>)
    ensures
        match journal_reply(j@, *args) {
            Ok(v) => r matches Ok(a) && a@ == v,
            Err(e) => r matches Err(f) && f@ == e,
        },
{
    let action: &str = text_from(args, "action", "query");
    if text_eq(action, "query") || text_eq(action, "export") {
        return Ok(list_changes(j, args, action));
    }
    if !text_eq(action, "replay") {
        let mut message: String = "invalid journal action ".to_owned();
        message.append(debug_format(action).as_str());
        message.append(" — use query, replay, or export");
        return Err(refuse("INVALID_ACTION", message, None));
    }
    let file: &str = match args.get_str("file") {
        Some(f) => f,
        None => {
            return Err(
                refuse("MISSING_FILE", "journal replay requires 'file'".to_owned(), None),
            );
        },
    };
    if file.is_empty() {
        return Err(refuse("MISSING_FILE", "journal replay requires 'file'".to_owned(), None));
    }
    let at: Option<u64> = args.get_u64("at");
    match replay_file(j, file, at) {
        Err(e) => Err(refuse("REPLAY_FAILED", e, None)),
        Ok(content) => {
            let text: String = match &content {
                Some(t) => t.clone(),
                None => {
                    let mut text: String = "[OK] journal replay: ".to_owned();
                    text.append(file);
                    text.append(" did not exist at requested sequence\n");
                    text
                },
            };
            Ok(
                JournalReply::File {
                    file: file.to_owned(),
                    at,
                    out: match args.get_str("out") {
                        Some(o) => Some(o.to_owned()),
                        None => None,
                    },
                    content,
                    text,
                },
            )
        },
    }
}

/// The value of decimal digits, if there are only digits.
pub open spec fn digits_value(s: Seq<char>) -> Option<nat>
    decreases s.len(),
{
    if s.len() == 0 {
        Some(0)
    } else if '0' <= s.last() <= '9' {
        match digits_value(s.drop_last()) {
            Some(n) => Some((10 * n + (s.last() as u32 - 48)) as nat),
            None => None,
        }
    } else {
        None
    }
}

/// A number as it is written on the command line: digits, perhaps behind a plus sign.
pub open spec fn number(s: Seq<char>) -> Option<u64> {
    let d = if s.len() > 0 && s[0] == '+' {
        s.skip(1)
    } else {
        s
    };
    if d.len() == 0 {
        None
    } else {
        match digits_value(d) {
            Some(n) => if n <= u64::MAX {
                Some(n as u64)
            } else {
                None
            },
            None => None,
        }
    }
}

proof fn lemma_digits_stay(s: Seq<char>, i: int)
    requires
        0 <= i <= s.len(),
    ensures
        digits_value(s.take(i)) is None ==> digits_value(s) is None,
        digits_value(s) matches Some(n) ==> (digits_value(s.take(i)) matches Some(m) && m <= n),
    decreases s.len(),
{
    if i == s.len() {
        assert(s.take(i) =~= s);
    } else {
        assert(s.drop_last().take(i) =~= s.take(i));
        lemma_digits_stay(s.drop_last(), i);
    }
}

/// Reads a number from the command line.
pub fn parse_number(text: &str) -> (r: Option<u64>)
    ensures
        r == number(text@),
{
    let s: Vec<char> = chars_of(text);
    let n: usize = s.len();
    let start: usize = if n > 0 && s[0] == '+' {
        1
    } else {
        0
    };
    if start == n {
        return None;
    }
    let ghost d = s@.skip(start as int);
    proof {
        if start == 0 {
            assert(d =~= s@);
        }
        assert(d.take(0) =~= Seq::<char>::empty());
    }
    let mut value: u64 = 0;
    let mut i: usize = start;
    while i < n
        invariant
            start <= i <= n,
            n == s@.len(),
            d == s@.skip(start as int),
            d.len() > 0,
            s@ == text@,
            start == (if s@.len() > 0 && s@[0] == '+' {
                1int
            } else {
                0
            }),
            digits_value(d.take(i - start)) == Some(value as nat),
        decreases n - i,
    {
        let c: char = s[i];
        proof {
            let t = d.take(i + 1 - start);
            assert(t.drop_last() =~= d.take(i - start));
            assert(t.last() == c);
            lemma_digits_stay(d, i + 1 - start);
            if start == 0 {
                assert(d =~= s@);
            }
        }
        if !('0' <= c && c <= '9') {
            return None;
        }
        let v: u64 = (c as u32 - 48) as u64;
        if value > u64::MAX / 10 || value * 10 > u64::MAX - v {
            return None;
        }
        value = value * 10 + v;
        i = i + 1;
    }
    proof {
        assert(d.take(n - start) =~= d);
        if start == 0 {
            assert(d =~= s@);
        }
    }
    Some(value)
}

/// What the command line asks for.
#[derive(Debug, PartialEq, Eq)]
pub enum CliCall {
    Query { session: Option<String>, file: Option<String>, since: Option<u64> },
    Replay { target: String, at: Option<u64>, out: Option<String> },
    Export { session: Option<String>, patches: bool },
}

/// What the command line asks for.
#[verifier::ext_equal]
pub enum CliView {
    Query { session: Option<Seq<char>>, file: Option<Seq<char>>, since: Option<u64> },
    Replay { target: Seq<char>, at: Option<u64>, out: Option<Seq<char>> },
    Export { session: Option<Seq<char>>, patches: bool },
}

impl View for CliCall {
    type V = CliView;

    open spec fn view(&self) -> CliView {
        match self {
            CliCall::Query { session, file, since } => CliView::Query {
                session: opt_text(*session),
                file: opt_text(*file),
                since: *since,
            },
            CliCall::Replay { target, at, out } => CliView::Replay {
                target: target@,
                at: *at,
                out: opt_text(*out),
            },
            CliCall::Export { session, patches } => CliView::Export {
                session: opt_text(*session),
                patches: *patches,
            },
        }
    }
}

/// The options of a query from a place on: each takes the next argument, the last one
/// counts, and one without an argument says nothing.
pub open spec fn query_options(
    args: Seq<Seq<char>>,
    i: int,
    session: Option<Seq<char>>,
    file: Option<Seq<char>>,
    since: Option<u64>,
) -> Result<CliView, Seq<char>>
    decreases args.len() - i,
{
    if i < 0 || i >= args.len() {
        Ok(CliView::Query { session, file, since })
    } else if args[i] == "--session"@ {
        if i + 1 < args.len() {
            query_options(args, i + 2, Some(args[i + 1]), file, since)
        } else {
            Ok(CliView::Query { session, file, since })
        }
    } else if args[i] == "--file"@ {
        if i + 1 < args.len() {
            query_options(args, i + 2, session, Some(args[i + 1]), since)
        } else {
            Ok(CliView::Query { session, file, since })
        }
    } else if args[i] == "--since"@ {
        if i + 1 < args.len() {
            query_options(args, i + 2, session, file, number(args[i + 1]))
        } else {
            Ok(CliView::Query { session, file, since })
        }
    } else {
        Err("unknown journal query argument: "@ + args[i])
    }
}

/// The options of a replay from a place on.
pub open spec fn replay_options(
    args: Seq<Seq<char>>,
    i: int,
    file: Seq<char>,
    at: Option<u64>,
    out: Option<Seq<char>>,
) -> Result<CliView, Seq<char>>
    decreases args.len() - i,
{
    if i < 0 || i >= args.len() {
        Ok(CliView::Replay { target: file, at, out })
    } else if args[i] == "--at"@ {
        if i + 1 < args.len() {
            replay_options(args, i + 2, file, number(args[i + 1]), out)
        } else {
            Ok(CliView::Replay { target: file, at, out })
        }
    } else if args[i] == "--out"@ {
        if i + 1 < args.len() {
            replay_options(args, i + 2, file, at, Some(args[i + 1]))
        } else {
            Ok(CliView::Replay { target: file, at, out })
        }
    } else {
        Err("unknown journal replay argument: "@ + args[i])
    }
}

/// The options of an export from a place on: a bare argument is the session, unless
/// there is one already.
pub open spec fn export_options(
    args: Seq<Seq<char>>,
    i: int,
    session: Option<Seq<char>>,
    patches: bool,
) -> Result<CliView, Seq<char>>
    decreases args.len() - i,
{
    if i < 0 || i >= args.len() {
        Ok(CliView::Export { session, patches })
    } else if args[i] == "--session"@ {
        if i + 1 < args.len() {
            export_options(args, i + 2, Some(args[i + 1]), patches)
        } else {
            Ok(CliView::Export { session, patches })
        }
    } else if args[i] == "--format"@ {
        if i + 1 < args.len() {
            export_options(args, i + 2, session, args[i + 1] == "patches"@)
        } else {
            Ok(CliView::Export { session, patches })
        }
    } else if session is None {
        export_options(args, i + 1, Some(args[i]), patches)
    } else {
        Err("unknown journal export argument: "@ + args[i])
    }
}

/// What the command line asks for, or what is said about it.
pub open spec fn cli_call(args: Seq<Seq<char>>) -> Result<CliView, Seq<char>> {
    if args.len() == 0 {
        Err("Usage: qaqh-workspace journal <query|replay|export> ..."@)
    } else if args[0] == "query"@ {
        query_options(args, 1, None, None, None)
    } else if args[0] == "replay"@ {
        if args.len() < 2 || args[1].len() == 0 {
            Err(
                "Usage: qaqh-workspace journal replay <file> [--at <seq>] [--out <file-or-dir>]"@,
            )
        } else {
            replay_options(args, 2, args[1], None, None)
        }
    } else if args[0] == "export"@ {
        export_options(args, 1, None, false)
    } else {
        Err("unknown journal command: "@ + args[0])
    }
}

fn told(prefix: &str, arg: &str) -> (out: String)
    ensures
        out@ == prefix@ + arg@,
{
    let mut out: String = prefix.to_owned();
    out.append(arg);
    out
}

fn parse_query(args: &[String]) -> (r: Result<CliCall, String>)
    requires
        args@.len() >= 1,
    ensures
        match query_options(texts(args@), 1, None, None, None) {
            Ok(v) => r matches Ok(c) && c@ == v,
            Err(e) => r matches Err(f) && f@ == e,
        },
{
    let ghost t = texts(args@);
    let mut session: Option<String> = None;
    let mut file: Option<String> = None;
    let mut since: Option<u64> = None;
    let n: usize = args.len();
    let mut i: usize = 1;
    while i < n
        invariant
            1 <= i <= n,
            n == args@.len(),
            t == texts(args@),
            query_options(t, 1, None, None, None) == query_options(
                t,
                i as int,
                opt_text(session),
                opt_text(file),
                since,
            ),
        decreases n - i,
    {
        let arg: &str = args[i].as_str();
        proof {
            assert(t[i as int] == arg@);
        }
        let is_session: bool = text_eq(arg, "--session");
        let is_file: bool = text_eq(arg, "--file");
        let is_since: bool = text_eq(arg, "--since");
        if !is_session && !is_file && !is_since {
            return Err(told("unknown journal query argument: ", arg));
        }
        if n - i < 2 {
            return Ok(CliCall::Query { session, file, since });
        }
        proof {
            assert(t[i + 1] == args@[i + 1]@);
        }
        if is_session {
            session = Some(args[i + 1].clone());
        } else if is_file {
            file = Some(args[i + 1].clone());
        } else {
            since = parse_number(args[i + 1].as_str());
        }
        i = i + 2;
    }
    Ok(CliCall::Query { session, file, since })
}

fn parse_replay(args: &[String]) -> (r: Result<CliCall, String>)
    requires
        args@.len() >= 2,
    ensures
        match replay_options(texts(args@), 2, args@[1]@, None, None) {
            Ok(v) => r matches Ok(c) && c@ == v,
            Err(e) => r matches Err(f) && f@ == e,
        },
{
    let ghost t = texts(args@);
    let file: String = args[1].clone();
    let mut at: Option<u64> = None;
    let mut out: Option<String> = None;
    let n: usize = args.len();
    let mut i: usize = 2;
    while i < n
        invariant
            2 <= i <= n,
            n == args@.len(),
            t == texts(args@),
            file@ == args@[1]@,
            replay_options(t, 2, args@[1]@, None, None) == replay_options(
                t,
                i as int,
                file@,
                at,
                opt_text(out),
            ),
        decreases n - i,
    {
        let arg: &str = args[i].as_str();
        proof {
            assert(t[i as int] == arg@);
        }
        let is_at: bool = text_eq(arg, "--at");
        let is_out: bool = text_eq(arg, "--out");
        if !is_at && !is_out {
            return Err(told("unknown journal replay argument: ", arg));
        }
        if n - i < 2 {
            return Ok(CliCall::Replay { target: file, at, out });
        }
        proof {
            assert(t[i + 1] == args@[i + 1]@);
        }
        if is_at {
            at = parse_number(args[i + 1].as_str());
        } else {
            out = Some(args[i + 1].clone());
        }
        i = i + 2;
    }
    Ok(CliCall::Replay { target: file, at, out })
}

fn parse_export(args: &[String]) -> (r: Result<CliCall, String>)
    requires
        args@.len() >= 1,
    ensures
        match export_options(texts(args@), 1, None, false) {
            Ok(v) => r matches Ok(c) && c@ == v,
            Err(e) => r matches Err(f) && f@ == e,
        },
{
    let ghost t = texts(args@);
    let mut session: Option<String> = None;
    let mut patches: bool = false;
    let n: usize = args.len();
    let mut i: usize = 1;
    while i < n
        invariant
            1 <= i <= n,
            n == args@.len(),
            t == texts(args@),
            export_options(t, 1, None, false) == export_options(
                t,
                i as int,
                opt_text(session),
                patches,
            ),
        decreases n - i,
    {
        let arg: &str = args[i].as_str();
        proof {
            assert(t[i as int] == arg@);
        }
        let is_session: bool = text_eq(arg, "--session");
        let is_format: bool = text_eq(arg, "--format");
        if !is_session && !is_format {
            if session.is_some() {
                return Err(told("unknown journal export argument: ", arg));
            }
            session = Some(arg.to_owned());
            i = i + 1;
        } else {
            if n - i < 2 {
                return Ok(CliCall::Export { session, patches });
            }
            proof {
                assert(t[i + 1] == args@[i + 1]@);
            }
            if is_session {
                session = Some(args[i + 1].clone());
            } else {
                patches = text_eq(args[i + 1].as_str(), "patches");
            }
            i = i + 2;
        }
    }
    Ok(CliCall::Export { session, patches })
}

/// Reads the command line; what cannot be read is answered with a message and the
/// exit code 2.
pub fn cli_main(args: &[String]) -> (r: Result<CliCall, String>)
    ensures
        match cli_call(texts(args@)) {
            Ok(v) => r matches Ok(c) && c@ == v,
            Err(e) => r matches Err(f) && f@ == e,
        },
{
    if args.len() == 0 {
        return Err("Usage: qaqh-workspace journal <query|replay|export> ...".to_owned());
    }
    let command: &str = args[0].as_str();
    proof {
        assert(texts(args@)[0] == command@);
    }
    if text_eq(command, "query") {
        parse_query(args)
    } else if text_eq(command, "replay") {
        if args.len() < 2 || args[1].as_str().is_empty() {
            proof {
                if args@.len() >= 2 {
                    assert(texts(args@)[1] == args@[1]@);
                }
            }
            return Err(
                "Usage: qaqh-workspace journal replay <file> [--at <seq>] [--out <file-or-dir>]".to_owned(),
            );
        }
        proof {
            assert(texts(args@)[1] == args@[1]@);
        }
        parse_replay(args)
    } else if text_eq(command, "export") {
        parse_export(args)
    } else {
        Err(told("unknown journal command: ", command))
    }
}

/// What is said of a replay, and the exit code.
pub open spec fn said_of(replayed: Result<Option<Seq<char>>, Seq<char>>) -> (Seq<char>, i32) {
    match replayed {
        Ok(Some(content)) => (content, 0),
        Ok(None) => ("(file did not exist at requested sequence)"@, 0),
        Err(e) => ("journal replay failed: "@ + e, 1),
    }
}

/// What the command line says of a replay, and its exit code.
pub fn replay_said(replayed: Result<Option<String>, String>) -> (r: (String, i32))
    ensures
        (r.0@, r.1) == said_of(
            match replayed {
                Ok(c) => Ok(opt_text(c)),
                Err(e) => Err(e@),
            },
        ),
{
    match replayed {
        Ok(Some(content)) => (content, 0),
        Ok(None) => ("(file did not exist at requested sequence)".to_owned(), 0),
        Err(e) => (told("journal replay failed: ", e.as_str()), 1),
    }
}

} // verus!
