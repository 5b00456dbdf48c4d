//! What holds of the texts and the data that calls are answered with.

use vstd::prelude::*;

use crate::apply_patch::{counts_upto, patch_text};
use crate::apply_patch_engine::engine::{engine_error_text, ApplyView, EngineErrorView};
use crate::apply_patch_engine::parser::ParseErrorView;
use crate::copy_range::{copy_text, CopyCall, RangeView};
use crate::edit::candidate::CandidateView;
use crate::edit::handler::cr_total;
use crate::edit::hunk::{cr_count, Hunk};
use crate::edit::render::{
    candidate_lines, candidates_lines, capped, error_lines, every_line, failed_lines, hash8,
    hint_text, note_lines, ok_line, outcome_body, outcome_text, placed_count, placed_lines,
    range_text, refused_lines,
};
use crate::edit::report::{candidate_data, candidates_data, hint_data, number, report_members};
use crate::edit::score::{fixed2, no_match_text, Tier3Probe};
use crate::edit::transaction::{OutcomeView, ReportView};
use crate::exec::handler::command_fixed;
use crate::exec::register::exec_info;
use crate::exec::shell::{command_line, powershell_options, Shell};
use crate::file_cache::{tells, CachedView, Unchanged};
use crate::file_mutate::{
    change_line, preview_text, size_text, stats_line, written_text, written_view, WriteCall,
};
use crate::file_query::divider;
use crate::file_shared::{diff_text, hash_of, is_binary_error, lf_view};
use crate::format::{byte_len, dec, fitting, left_aligned, right_aligned};
use crate::image_query::query::{short_form, usage_note};
use crate::journal::log::{patch_of, Change};
use crate::json::{str_at, Json};
use crate::json_view::{json_view, JsonView};
use crate::laws::text::as_much_as_fits;
use crate::ledger::{summary_line, EntryView};
use crate::lines::join;
use crate::manager::{not_run, ToolCategory, ToolPlacement, ToolRisk};
use crate::numbered::line_count;
use crate::outside::{added_total, first_change, line_steps, regex_error, regex_every, removed_total};
use crate::pending::{hex, pending_id};
use crate::raw_lines::{closed_off, line_break, terminated};
use crate::refusal::plain_refusal;
use crate::search::{at, ends, occurs, replaced};
use crate::text::is_blank;

verus! {

/// A range of lines is named by its first and last, one line by itself, and what is no range
/// as the file.
pub proof fn ranges_are_named(a: int, b: int)
    ensures
        a == b ==> range_text(Some((a, b))) == "L"@ + dec(a as nat),
        a != b ==> range_text(Some((a, b))) == "L"@ + dec(a as nat) + "-L"@ + dec(b as nat),
        range_text(None) == "file"@,
{
}

/// A report says how an edit went: it succeeded, in part or not at all, and on which file.
pub proof fn report_begins_with_the_outcome(path: Seq<char>, o: OutcomeView)
    ensures
        o.edited is Some && o.code is None ==> ("[OK] edit "@ + path).is_prefix_of(
            outcome_text(path, o),
        ),
        o.edited is Some && o.code is Some ==> ("[PARTIAL] edit "@ + path).is_prefix_of(
            outcome_text(path, o),
        ),
        o.edited is None ==> ("[ERROR] edit "@ + path).is_prefix_of(outcome_text(path, o)),
        o.notes.len() == 0 ==> outcome_text(path, o) == outcome_body(path, o),
        outcome_body(path, o).is_prefix_of(outcome_text(path, o)),
{
    let all = outcome_text(path, o);
    let body = outcome_body(path, o);
    assert(all.take(body.len() as int) =~= body);
    assert(body + Seq::<char>::empty() =~= body);
    let ok = "[OK] edit "@ + path;
    let part = "[PARTIAL] edit "@ + path;
    let bad = "[ERROR] edit "@ + path;
    if o.edited is Some && o.code is None {
        assert(all.take(ok.len() as int) =~= ok);
    }
    if o.edited is Some && o.code is Some {
        assert(all.take(part.len() as int) =~= part);
    }
    if o.edited is None {
        assert(all.take(bad.len() as int) =~= bad);
    }
}

/// Of a successful edit every hunk is shown; of one in part, first those that were placed, then
/// those that were not; of a failed one each by how it went. Each has its line behind the ones
/// before.
pub proof fn each_hunk_has_its_line(reports: Seq<ReportView>, n: int)
    requires
        0 <= n < reports.len(),
    ensures
        ({
            let r = reports[n];
            let line = "  "@ + ok_line(r) + "\n"@;
            let ok = r.status == "ok"@;
            &&& every_line(reports, n + 1) == every_line(reports, n) + line
            &&& ok ==> placed_lines(reports, n + 1) == placed_lines(reports, n) + line
            &&& !ok ==> placed_lines(reports, n + 1) == placed_lines(reports, n)
            &&& ok ==> failed_lines(reports, n + 1) == failed_lines(reports, n)
            &&& !ok ==> failed_lines(reports, n + 1) == failed_lines(reports, n) + error_lines(r)
            &&& !ok ==> refused_lines(reports, n + 1) == refused_lines(reports, n) + error_lines(r)
            &&& ok ==> placed_count(reports, n + 1) == placed_count(reports, n) + 1
            &&& !ok ==> placed_count(reports, n + 1) == placed_count(reports, n)
            &&& every_line(reports, 0).len() == 0 && placed_lines(reports, 0).len() == 0
            &&& failed_lines(reports, 0).len() == 0 && refused_lines(reports, 0).len() == 0
            &&& placed_count(reports, 0) == 0
        }),
{
}

/// The line of a hunk begins with its number, its kind and its lines, and ends with its note.
pub proof fn hunk_line_names_the_hunk(r: ReportView, note: Seq<char>)
    requires
        r.note == Some(note),
    ensures
        ("hunk"@ + dec(r.index as nat) + " "@ + r.kind + ": "@ + range_text(
            r.line_range,
        )).is_prefix_of(ok_line(r)),
        ok_line(r).len() >= note.len(),
        ok_line(r).skip(ok_line(r).len() - note.len()) == note,
        ("  hunk"@ + dec(r.index as nat) + " "@ + r.kind + ": "@).is_prefix_of(error_lines(r)),
{
    let head = "hunk"@ + dec(r.index as nat) + " "@ + r.kind + ": "@ + range_text(r.line_range);
    let line = ok_line(r);
    assert(line.take(head.len() as int) =~= head);
    assert(line.skip(line.len() - note.len()) =~= note);
    let bad = "  hunk"@ + dec(r.index as nat) + " "@ + r.kind + ": "@;
    assert(error_lines(r).take(bad.len() as int) =~= bad);
}

/// Candidates and notes are listed one behind the other.
pub proof fn candidates_and_notes_are_listed(
    cands: Seq<CandidateView>,
    notes: Seq<Seq<char>>,
    n: int,
)
    ensures
        0 <= n < cands.len() ==> candidates_lines(cands, n + 1) == candidates_lines(cands, n)
            + candidate_lines(n, cands[n]),
        0 <= n < notes.len() ==> note_lines(notes, n + 1) == note_lines(notes, n) + ("  note: "@
            + notes[n] + "\n"@),
        candidates_lines(cands, 0).len() == 0,
        note_lines(notes, 0).len() == 0,
        forall|i: int, c: CandidateView|
            0 <= i ==> ("    candidate #"@ + dec((i + 1) as nat) + " L"@ + dec(c.first as nat) + "-L"@
                + dec(c.last as nat) + " score "@ + fixed2(c.score)).is_prefix_of(
                #[trigger] candidate_lines(i, c),
            ),
{
    assert forall|i: int, c: CandidateView| 0 <= i implies ("    candidate #"@ + dec((i + 1) as nat)
        + " L"@ + dec(c.first as nat) + "-L"@ + dec(c.last as nat) + " score "@ + fixed2(
        c.score,
    )).is_prefix_of(#[trigger] candidate_lines(i, c)) by {
        let head = "    candidate #"@ + dec((i + 1) as nat) + " L"@ + dec(c.first as nat) + "-L"@ + dec(
            c.last as nat,
        ) + " score "@ + fixed2(c.score);
        assert(candidate_lines(i, c).take(head.len() as int) =~= head);
    }
}

/// Content of up to 65536 bytes is shown whole; a longer one is cut between two characters, as
/// late as the limit allows, and marked.
pub proof fn long_content_is_cut(s: Seq<char>)
    ensures
        byte_len(s) <= 65536 ==> capped(s) == s,
        byte_len(s) > 65536 ==> exists|k: int|
            0 <= k < s.len() && #[trigger] s.take(k).is_prefix_of(capped(s)) && byte_len(s.take(k))
                <= 65536 && byte_len(s.take(k + 1)) > 65536 && capped(s).len() > k && capped(s)[k]
                == '…',
{
    reveal_strlit("…[truncated: ");
    let k = fitting(s, 65536) as int;
    as_much_as_fits(s, 65536);
    if byte_len(s) > 65536 {
        if k == s.len() {
            assert(s.take(k) =~= s);
        }
        assert(capped(s).take(k) =~= s.take(k));
        assert(s.take(k).is_prefix_of(capped(s)));
    }
}

/// Each code that an edit can fail under has its hint, and no other has one.
pub proof fn codes_have_hints(code: Seq<char>)
    ensures
        hint_text(code) is Some <==> code == "NO_MATCH"@ || code == "AMBIGUOUS_MATCH"@ || code
            == "OVERLAPPING_HUNKS"@ || code == "UNDERSPECIFIED"@ || code == "OVERWRITE_EXCLUSIVE"@
            || code == "HASH_MISMATCH"@ || code == "INVALID_REGEX"@,
{
}

/// A fingerprint is shown by its first eight characters.
pub proof fn fingerprints_are_shown_short(h: Seq<char>)
    ensures
        h.len() >= 8 ==> hash8(Some(h)) == h.take(8),
        h.len() < 8 ==> hash8(Some(h)) == h,
        hash8(None).len() == 0,
{
    reveal_strlit("");
}

/// Each text of a request that held a carriage return leaves a note: a hunk has one for each of
/// its own texts, and the hunks add up.
pub proof fn carriage_returns_are_noted(v: Json, h: Hunk, items: Seq<Json>, hunks: Seq<Hunk>, n: int)
    requires
        0 <= n < items.len(),
        n < hunks.len(),
    ensures
        ({
            let one = |key: Seq<char>|
                if str_at(v, key) is Some && str_at(v, key)->0.contains('\r') {
                    1nat
                } else {
                    0nat
                };
            &&& h is Replace ==> cr_count(v, h) == one("old"@) + one("new"@) + one(
                "context_before"@,
            ) + one("context_after"@)
            &&& h is InsertAfter || h is InsertBefore ==> cr_count(v, h) == one("anchor"@) + one(
                "new"@,
            )
            &&& h is ReplaceInline ==> cr_count(v, h) == one("anchor"@) + one("old"@) + one("new"@)
            &&& h is Overwrite || h is PrependFile || h is AppendFile ==> cr_count(v, h) == one(
                "new"@,
            )
        }),
        cr_total(items, hunks, n + 1) == cr_total(items, hunks, n) + cr_count(items[n], hunks[n]),
        cr_total(items, hunks, 0) == 0,
{
    reveal_strlit("");
    assert(!""@.contains('\r'));
}

/// The data on a hunk names its number, its kind and how it went; of a hunk that was placed by a
/// hint it says by how many lines the hint was off.
pub proof fn data_says_how_a_hunk_went(r: ReportView)
    requires
        r.index >= 0,
    ensures
        report_members(r).contains(("index"@, JsonView::Uint(r.index as u64))),
        report_members(r).contains(("kind"@, JsonView::Str(r.kind))),
        report_members(r).contains(("status"@, JsonView::Str(r.status))),
        r.used_hint is None ==> hint_data(r).len() == 0,
        r.used_hint matches Some(h) ==> {
            &&& hint_data(r).len() > 0 && hint_data(r)[0] == ("used_hint"@, JsonView::Uint(h as u64))
            &&& r.line_range matches Some(l) ==> hint_data(r).len() == 3 && hint_data(r)[1] == (
                "actual_line"@,
                number(l.0),
            ) && hint_data(r)[2] == ("line_offset"@, number(l.0 - h))
        },
        forall|n: int| n >= 0 ==> #[trigger] number(n) == JsonView::Uint(n as u64),
        forall|n: int| n < 0 ==> #[trigger] number(n) == JsonView::Int(n as i64),
{
    let m = report_members(r);
    assert(m[0] == ("index"@, JsonView::Uint(r.index as u64)));
    assert(m[1] == ("kind"@, JsonView::Str(r.kind)));
    assert(m[2] == ("status"@, JsonView::Str(r.status)));
}

/// A change is summed up by its file, its first line and the lines it adds and removes.
pub proof fn change_is_summed_up(
    prefix: Seq<char>,
    path: Seq<char>,
    before: Seq<char>,
    after: Seq<char>,
    content: Seq<char>,
)
    ensures
        stats_line(prefix, path, before, after) == change_line(
            prefix,
            path,
            added_total(line_steps(before, after)),
            removed_total(line_steps(before, after)),
            first_change(line_steps(before, after)) as nat,
            "write"@,
        ),
        forall|added: nat, removed: nat, first: nat, label: Seq<char>| #[trigger]
            change_line(prefix, path, added, removed, first, label) == "["@ + prefix + "] "@ + path
                + ":"@ + dec(first) + " +"@ + dec(added) + " -"@ + dec(removed) + " | "@ + label,
        size_text(content) == dec(byte_len(content)) + " bytes, "@ + dec(line_count(content))
            + " lines"@,
{
}

/// A preview shows the diff between the file and what the write would leave, and a write sums
/// the same change up; a new file, an append and a write that changes nothing say so.
pub proof fn write_says_what_it_does(call: WriteCall, before: Seq<char>)
    ensures
        !call.append ==> written_view(call, Some(before)) == lf_view(call.content@),
        call.append ==> written_view(call, Some(before)) == lf_view(
            lf_view(before) + call.content@,
        ),
        ({
            let old = lf_view(before);
            let new = written_view(call, Some(before));
            let diff = diff_text(old, new, call.path@);
            diff.len() > 0 ==> preview_text(call, Some(before)) == stats_line(
                "DRY RUN"@,
                call.path@,
                old,
                new,
            ) + "\n\n"@ + crate::text::trim_end(diff)
        }),
        !call.append && lf_view(before) != lf_view(call.content@) ==> written_text(
            call,
            Some(before),
        ) == stats_line("OK"@, call.path@, lf_view(before), lf_view(call.content@)),
        call.append ==> written_text(call, Some(before)) == change_line(
            "OK"@,
            call.path@,
            line_count(call.content@),
            0,
            line_count(before) + 1,
            "write"@,
        ),
        ("[OK] "@ + call.path@).is_prefix_of(written_text(call, None)),
{
    let t = written_text(call, None);
    let head = "[OK] "@ + call.path@;
    assert(t.take(head.len() as int) =~= head);
}

/// A text is filled up with spaces to its width, behind it or before it; a longer one stays.
pub proof fn columns_are_filled_up(s: Seq<char>, w: nat)
    ensures
        s.is_prefix_of(left_aligned(s, w)),
        left_aligned(s, w).len() == (if s.len() >= w {
            s.len()
        } else {
            w
        }),
        forall|i: int| s.len() <= i < left_aligned(s, w).len() ==> left_aligned(s, w)[i] == ' ',
        right_aligned(s, w).len() == (if s.len() >= w {
            s.len()
        } else {
            w
        }),
        right_aligned(s, w).skip(right_aligned(s, w).len() - s.len()) == s,
        forall|i: int|
            0 <= i < right_aligned(s, w).len() - s.len() ==> right_aligned(s, w)[i] == ' ',
{
    assert(left_aligned(s, w).take(s.len() as int) =~= s);
    assert(right_aligned(s, w).skip(right_aligned(s, w).len() - s.len()) =~= s);
}

/// A refusal shows its message, and carries its code and hint; it is not to be repeated.
pub proof fn refusal_shows_its_message(
    code: Seq<char>,
    message: Seq<char>,
    hint: Option<Seq<char>>,
)
    ensures
        plain_refusal(code, message, hint).code == code,
        plain_refusal(code, message, hint).text == message,
        plain_refusal(code, message, hint).message == message,
        plain_refusal(code, message, hint).hint == hint,
        !plain_refusal(code, message, hint).retryable,
        plain_refusal(code, message, hint).hash is None,
        plain_refusal(code, message, hint).total_lines is None,
        plain_refusal(code, message, hint).candidates is None,
{
}

/// A read error that speaks of UTF-8 tells of a binary file.
pub proof fn utf8_errors_tell_of_binary_files(a: Seq<char>, word: Seq<char>, b: Seq<char>)
    ensures
        word == "valid UTF-8"@ || word == "utf8"@ || word == "utf-8"@ || word == "UTF-8"@
            ==> is_binary_error(a + word + b),
        is_binary_error(a) ==> occurs(a, "utf8"@) || occurs(a, "utf-8"@) || occurs(a, "UTF-8"@)
            || occurs(a, "valid UTF-8"@),
{
    let s = a + word + b;
    let n = a.len() as int;
    assert(s.subrange(n, n + word.len()) =~= word);
    assert(at(s, word, n));
}

/// A text stands in another exactly when that can be parted round it; it ends one exactly when
/// nothing stands behind it.
pub proof fn occurrences_part_the_text(s: Seq<char>, p: Seq<char>)
    ensures
        occurs(s, p) <==> exists|a: Seq<char>, b: Seq<char>| s == #[trigger] (a + p + b),
        ends(s, p) <==> exists|a: Seq<char>| s == #[trigger] (a + p),
{
    if occurs(s, p) {
        let i = choose|i: int| at(s, p, i);
        assert(s =~= s.take(i) + p + s.skip(i + p.len()));
    }
    if exists|a: Seq<char>, b: Seq<char>| s == #[trigger] (a + p + b) {
        let (a, b) = choose|a: Seq<char>, b: Seq<char>| s == #[trigger] (a + p + b);
        let n = a.len() as int;
        assert(s.subrange(n, n + p.len()) =~= p);
        assert(at(s, p, n));
    }
    if ends(s, p) {
        let n = s.len() - p.len();
        assert(s =~= s.take(n) + p);
    }
    if exists|a: Seq<char>| s == #[trigger] (a + p) {
        let a = choose|a: Seq<char>| s == #[trigger] (a + p);
        let n = a.len() as int;
        assert(s.subrange(n, n + p.len()) =~= p);
    }
}

/// An empty text is found between any two characters, and at both ends.
pub proof fn nothing_is_found_everywhere(s: Seq<char>, c: char, to: Seq<char>)
    ensures
        replaced(Seq::empty(), Seq::empty(), to) == to,
        replaced(seq![c] + s, Seq::empty(), to) == to + seq![c] + replaced(s, Seq::empty(), to),
{
    assert((seq![c] + s).skip(1) =~= s);
    assert((seq![c] + s)[0] == c);
}

/// A JSON value says what it is, item by item and member by member.
pub proof fn values_say_what_they_are(v: Json)
    ensures
        v is Null ==> json_view(v) == JsonView::Null,
        v matches Json::Bool(b) ==> json_view(v) == JsonView::Bool(b),
        v matches Json::Uint(n) ==> json_view(v) == JsonView::Uint(n),
        v matches Json::Int(n) ==> json_view(v) == JsonView::Int(n),
        v matches Json::Float(s) ==> json_view(v) == JsonView::Float(s@),
        v matches Json::Str(s) ==> json_view(v) == JsonView::Str(s@),
        v matches Json::Arr(a) ==> (json_view(v) matches JsonView::Arr(w) && w.len() == a@.len()
            && forall|i: int| 0 <= i < w.len() ==> #[trigger] w[i] == json_view(a@[i])),
        v matches Json::Obj(p) ==> (json_view(v) matches JsonView::Obj(w) && w.len() == p@.len()
            && forall|i: int|
            0 <= i < w.len() ==> #[trigger] w[i] == (p@[i].0@, json_view(p@[i].1))),
{
}

/// Lines get the file's line break: CRLF where it has a carriage return, else a newline. A text
/// is closed off by one only where it is not empty and has none.
pub proof fn line_breaks_are_those_of_the_file(
    s: Seq<char>,
    lines: Seq<Seq<char>>,
    l: Seq<char>,
    eol: Seq<char>,
)
    ensures
        s.contains('\r') ==> line_break(s) == seq!['\r', '\n'],
        !s.contains('\r') ==> line_break(s) == seq!['\n'],
        terminated(Seq::empty(), eol).len() == 0,
        terminated(lines.push(l), eol) == terminated(lines, eol) + l + eol,
        s.len() == 0 ==> closed_off(s, eol) == s,
        s.len() > 0 && (s.last() == '\n' || s.last() == '\r') ==> closed_off(s, eol) == s,
        s.len() > 0 && s.last() != '\n' && s.last() != '\r' ==> closed_off(s, eol) == s + eol,
{
    assert(lines.push(l).drop_last() =~= lines);
}

/// A file that has not changed is named with its fingerprints and its number of lines.
pub proof fn unchanged_file_is_named(
    hit: Unchanged,
    path: Seq<char>,
    content: Seq<char>,
    e: CachedView,
)
    requires
        tells(hit, path, content, e),
    ensures
        hit.hash@ == hash_of(content),
        hit.total_lines == e.line_count,
        path.is_prefix_of(hit.content@),
        e.hash.len() >= 8 ==> hit.cache_hash@ == e.hash.take(8),
{
    assert(hit.content@.take(path.len() as int) =~= path);
}

/// The token counts of an answer are added to its text, with their sum.
pub proof fn token_counts_are_added(a: u64, b: u64)
    ensures
        usage_note(Some((a, b))) == "\n\n[Token usage: "@ + dec(a as nat) + " prompt + "@ + dec(
            b as nat,
        ) + " completion = "@ + dec((a + b) as nat) + " total]"@,
        usage_note(None).len() == 0,
{
}

/// Of an error's body up to 500 bytes are shown.
pub proof fn error_bodies_are_cut(s: Seq<char>)
    ensures
        short_form(s).is_prefix_of(s),
        byte_len(short_form(s)) <= 500,
        byte_len(s) <= 500 ==> short_form(s) == s,
{
    as_much_as_fits(s, 500);
    crate::format::lemma_fitting_bound(s, 500);
    assert(s.take(s.len() as int) =~= s);
    let k = fitting(s, 500) as int;
    assert(s.take(k).len() == k);
}

/// The diff of a recorded change is that of its texts before and after, where both are there
/// and differ.
pub proof fn recorded_diff_is_that_of_the_texts(c: Change)
    ensures
        c.before is None || c.after is None ==> patch_of(c) is None,
        c.before is Some && c.after is Some ==> {
            let d = diff_text(c.before->0@, c.after->0@, c.file@);
            &&& is_blank(d) ==> patch_of(c) is None
            &&& !is_blank(d) ==> patch_of(c) == Some(d)
        },
        c.before is Some && c.after is Some && c.before->0@ == c.after->0@ ==> patch_of(c) is None,
{
    assert(is_blank(Seq::<char>::empty()));
}

/// A diff is that of the two texts, under their names; equal texts have none.
pub proof fn equal_texts_have_no_diff(before: Seq<char>, after: Seq<char>, path: Seq<char>)
    ensures
        before == after ==> diff_text(before, after, path).len() == 0,
        before != after ==> diff_text(before, after, path) == crate::outside::unified_text(
            before,
            after,
            3,
            "a/"@ + path,
            "b/"@ + path,
        ),
{
}

/// A call that was not run failed, took no time and touched nothing.
pub proof fn call_that_was_not_run_failed(name: Seq<char>, message: Seq<char>)
    ensures
        ({
            let r = not_run(name, message);
            &&& !r.success && !r.meta_success
            &&& r.content == message
            &&& r.name == name
            &&& r.elapsed_ms == 0
            &&& r.output_size == byte_len(message)
            &&& r.files_affected.len() == 0
        }),
{
}

/// The tool that runs commands can destroy, runs in the workspace, and has half a minute.
pub proof fn commands_can_destroy()
    ensures
        exec_info().risk == ToolRisk::Destructive,
        exec_info().category == ToolCategory::Exec,
        exec_info().placement == ToolPlacement::Workspace,
        exec_info().default_timeout_secs == 30,
{
}

/// In a command every call of ripgrep with `-rn` loses the `r`, whatever letters follow; any
/// other command stays as it is.
pub proof fn ripgrep_calls_are_put_right(command: Seq<char>)
    ensures
        ({
            let call = "(?i)\\b(rg(\\.exe)?)\\s+-rn([a-z]*)"@;
            &&& regex_error(call) is None ==> command_fixed(command) == regex_every(
                call,
                command,
                "${1} -n${3}"@,
            )
            &&& regex_error(call) is Some ==> command_fixed(command) == command
        }),
{
}

/// PowerShell is started quietly, whatever it runs: without a logo, a profile or questions, and
/// with text in and out.
pub proof fn powershell_is_started_quietly(
    program: Seq<char>,
    command: Seq<char>,
    args: Seq<Seq<char>>,
)
    ensures
        ({
            let line = command_line(Shell::PowerShell, program, command, args);
            &&& line.len() > 10
            &&& line.subrange(1, 10) == seq![
                "-NoLogo"@,
                "-NoProfile"@,
                "-NonInteractive"@,
                "-ExecutionPolicy"@,
                "Bypass"@,
                "-InputFormat"@,
                "Text"@,
                "-OutputFormat"@,
                "Text"@,
            ]
        }),
{
    let line = command_line(Shell::PowerShell, program, command, args);
    assert(line.subrange(1, 10) =~= powershell_options());
}

/// The name of a dry run is made of the time and of its number.
pub proof fn dry_runs_are_named_by_time_and_number(nanos: u64, seq: u64)
    ensures
        pending_id(nanos, seq).len() > 2,
        pending_id(nanos, seq)[0] == 'p',
        pending_id(nanos, seq).skip(1) == hex(nanos as nat) + hex(seq as nat),
{
    reveal_strlit("p");
    crate::laws::service::hexadecimal_reads_back(nanos as nat);
    crate::laws::service::hexadecimal_reads_back(seq as nat);
    let id = pending_id(nanos, seq);
    assert(id.skip(1) =~= hex(nanos as nat) + hex(seq as nat));
}

/// The texts of several files are parted by a line of dashes between empty lines.
pub proof fn files_are_parted_by_dashes(texts: Seq<Seq<char>>, t: Seq<char>)
    requires
        texts.len() > 0,
    ensures
        join(texts.push(t), divider()) == join(texts, divider()) + "\n\n---\n\n"@ + t,
{
    crate::laws::text::joined_parts_stand_behind_separators(texts, divider(), t);
}

/// The error of a patch says what is wrong, and in which line of it.
pub proof fn patch_errors_are_told(e: EngineErrorView, m: Seq<char>, n: int)
    ensures
        e == EngineErrorView::Compute(m) ==> engine_error_text(e) == m,
        e == EngineErrorView::Parse(ParseErrorView::InvalidPatchError(m)) ==> engine_error_text(e)
            == "invalid patch: "@ + ("invalid patch: "@ + m),
        e == EngineErrorView::Parse(ParseErrorView::InvalidHunkError { message: m, line_number: n })
            ==> engine_error_text(e) == "invalid patch: "@ + ("invalid hunk at line "@ + dec(n as nat)
            + ", "@ + m),
        e == (EngineErrorView::PathOutsideWorkspace { path: m }) ==> engine_error_text(e)
            == "patch path resolves outside the workspace: "@ + m,
{
}

/// The report on a copy names its lines, its files and where the lines went.
pub proof fn copy_is_reported(call: CopyCall, r: RangeView)
    ensures
        ("[OK] copy_range — "@ + dec(r.copied as nat) + " line(s) L"@ + dec(r.range.0 as nat) + "-L"@
            + dec(r.range.1 as nat) + " copied: "@ + call.source_path@ + " → "@
            + call.target_path@).is_prefix_of(copy_text(call, r)),
{
    let head = "[OK] copy_range — "@ + dec(r.copied as nat) + " line(s) L"@ + dec(r.range.0 as nat)
        + "-L"@ + dec(r.range.1 as nat) + " copied: "@ + call.source_path@ + " → "@
        + call.target_path@;
    assert(copy_text(call, r).take(head.len() as int) =~= head);
}

/// Why no window was taken: the best score leads by too little, or is too low, or there is none.
pub proof fn missing_match_is_explained(p: Tier3Probe)
    ensures
        p.best.reaches_threshold() ==> ("best score "@ + fixed2(p.best.billionths())
            + " but margin to second-best ("@ + fixed2(p.second.billionths())).is_prefix_of(
            no_match_text(p),
        ),
        !p.best.reaches_threshold() && p.best.is_some_likeness() ==> ("best score "@ + fixed2(
            p.best.billionths(),
        ) + " is below threshold "@).is_prefix_of(no_match_text(p)),
        !p.best.reaches_threshold() && !p.best.is_some_likeness() ==> no_match_text(p)
            == "no window had any similarity — 'old' does not resemble any part of the file"@,
{
    let t = no_match_text(p);
    let a = "best score "@ + fixed2(p.best.billionths()) + " but margin to second-best ("@ + fixed2(
        p.second.billionths(),
    );
    let b = "best score "@ + fixed2(p.best.billionths()) + " is below threshold "@;
    if p.best.reaches_threshold() {
        assert(t.take(a.len() as int) =~= a);
    } else if p.best.is_some_likeness() {
        assert(t.take(b.len() as int) =~= b);
    }
}

/// The data on a candidate names its lines, shows them and tells its tier.
pub proof fn candidate_data_names_its_lines(c: CandidateView, all: Seq<CandidateView>, i: int)
    ensures
        candidate_data(c) matches JsonView::Obj(m) && m.contains(
            ("line_range"@, JsonView::Arr(seq![number(c.first), number(c.last)])),
        ) && m.contains(("snippet"@, JsonView::Str(c.snippet))) && m.contains(
            ("tier"@, number(c.tier)),
        ) && m.contains(("diff"@, JsonView::Str(c.diff))),
        candidates_data(all).len() == all.len(),
        0 <= i < all.len() ==> candidates_data(all)[i] == candidate_data(all[i]),
{
    let m = candidate_data(c)->Obj_0;
    assert(m[0] == ("line_range"@, JsonView::Arr(seq![number(c.first), number(c.last)])));
    assert(m[1] == ("snippet"@, JsonView::Str(c.snippet)));
    assert(m[3] == ("tier"@, number(c.tier)));
    assert(m[4] == ("diff"@, JsonView::Str(c.diff)));
}

/// The data on a hunk holds its tier, its lines, its code and its details where it has them.
pub proof fn data_holds_what_there_is(r: ReportView)
    ensures
        r.tier matches Some(t) ==> report_members(r).contains(("tier"@, number(t))),
        r.line_range matches Some(l) ==> report_members(r).contains(
            ("line_range"@, JsonView::Arr(seq![number(l.0), number(l.1)])),
        ),
        r.code matches Some(c) ==> report_members(r).contains(("code"@, JsonView::Str(c))),
        r.detail matches Some(d) ==> report_members(r).contains(("detail"@, JsonView::Str(d))),
        r.note matches Some(n) ==> report_members(r).contains(("note"@, JsonView::Str(n))),
{
    let m = report_members(r);
    let a = if r.tier is Some {
        1int
    } else {
        0
    };
    let b = if r.score is Some {
        1int
    } else {
        0
    };
    let c = if r.line_range is Some {
        1int
    } else {
        0
    };
    let d = hint_data(r).len() as int;
    let e = if r.note is Some {
        1int
    } else {
        0
    };
    let f = if r.code is Some {
        1int
    } else {
        0
    };
    if let Some(t) = r.tier {
        assert(m[3] == ("tier"@, number(t)));
    }
    if let Some(l) = r.line_range {
        assert(m[3 + a + b] == ("line_range"@, JsonView::Arr(seq![number(l.0), number(l.1)])));
    }
    if let Some(n) = r.note {
        assert(m[3 + a + b + c + d] == ("note"@, JsonView::Str(n)));
    }
    if let Some(x) = r.code {
        assert(m[3 + a + b + c + d + e] == ("code"@, JsonView::Str(x)));
    }
    if let Some(x) = r.detail {
        assert(m[3 + a + b + c + d + e + f] == ("detail"@, JsonView::Str(x)));
    }
}

/// The report on a patch counts its files and the lines that they gain and lose.
pub proof fn patch_is_reported(o: ApplyView)
    ensures
        ({
            let c = counts_upto(o.deltas, o.deltas.len() as int);
            let files = o.added.len() + o.modified.len() + o.deleted.len();
            &&& patch_text(o, false) == "[OK] apply_patch — applied: "@ + dec(files) + " file(s), +"@
                + dec(c.0) + " -"@ + dec(c.1) + "\n"@
            &&& ("[DRY RUN] apply_patch — patch parses: "@ + dec(files) + " file(s), +"@ + dec(c.0)
                + " -"@ + dec(c.1)).is_prefix_of(patch_text(o, true))
        }),
{
    let c = counts_upto(o.deltas, o.deltas.len() as int);
    let files = o.added.len() + o.modified.len() + o.deleted.len();
    let head = "[DRY RUN] apply_patch — patch parses: "@ + dec(files) + " file(s), +"@ + dec(c.0)
        + " -"@ + dec(c.1);
    assert(patch_text(o, true).take(head.len() as int) =~= head);
}

/// The line of a hunk tells the tier it was placed by, and the score where that is similarity.
pub proof fn hunk_line_tells_the_tier(r: ReportView, t: int, s: nat, note: Seq<char>)
    requires
        r.note == Some(note),
        r.tier == Some(t),
        r.score == Some(s),
    ensures
        ({
            let head = "hunk"@ + dec(r.index as nat) + " "@ + r.kind + ": "@ + range_text(
                r.line_range,
            ) + " "@ + ("tier"@ + dec(t as nat));
            &&& t == 3 ==> ok_line(r) == head + (" score "@ + fixed2(s)) + " "@ + note
            &&& t != 3 ==> ok_line(r) == head + " "@ + note
        }),
{
    reveal_strlit("");
    let head = "hunk"@ + dec(r.index as nat) + " "@ + r.kind + ": "@ + range_text(r.line_range)
        + " "@ + ("tier"@ + dec(t as nat));
    assert(head + ""@ =~= head);
}

/// The body of a report: all hunks of a success, those applied and those not of a partial one,
/// and each as it went of a failure, with the numbers of hunks and the new fingerprint.
pub proof fn report_counts_its_hunks(path: Seq<char>, o: OutcomeView, code: Seq<char>)
    ensures
        ({
            let n = o.reports.len() as int;
            &&& o.edited is Some && o.code is None ==> outcome_body(path, o) == "[OK] edit "@ + path
                + "\n  "@ + dec(n as nat) + "/"@ + dec(n as nat) + " hunks applied (new_hash "@
                + hash8(o.new_hash) + ")\n"@ + every_line(o.reports, n)
            &&& o.edited is Some && o.code is Some ==> ("[PARTIAL] edit "@ + path + "\n  applied "@
                + dec(placed_count(o.reports, n)) + "/"@ + dec(n as nat) + " hunks (new_hash "@
                + hash8(o.new_hash) + ")\n"@ + placed_lines(o.reports, n) + failed_lines(
                o.reports,
                n,
            )).is_prefix_of(outcome_body(path, o))
            &&& o.edited is None && o.code == Some(code) ==> {
                let tail = refused_lines(o.reports, n);
                let body = outcome_body(path, o);
                &&& ("[ERROR] edit "@ + path + "\n  no changes written ("@ + code
                    + ")\n"@).is_prefix_of(body)
                &&& body.len() >= tail.len() && body.skip(body.len() - tail.len()) == tail
            }
        }),
{
    let n = o.reports.len() as int;
    let body = outcome_body(path, o);
    if o.edited is Some && o.code is Some {
        let head = "[PARTIAL] edit "@ + path + "\n  applied "@ + dec(placed_count(o.reports, n))
            + "/"@ + dec(n as nat) + " hunks (new_hash "@ + hash8(o.new_hash) + ")\n"@ + placed_lines(
            o.reports,
            n,
        ) + failed_lines(o.reports, n);
        assert(body.take(head.len() as int) =~= head);
    }
    if o.edited is None && o.code == Some(code) {
        let head = "[ERROR] edit "@ + path + "\n  no changes written ("@ + code + ")\n"@;
        let tail = refused_lines(o.reports, n);
        assert(body.take(head.len() as int) =~= head);
        assert(body.skip(body.len() - tail.len()) =~= tail);
    }
}

/// A hunk that was placed in an edit that failed is shown as not applied.
pub proof fn placed_hunk_of_a_failed_edit_is_not_applied(reports: Seq<ReportView>, n: int)
    requires
        0 <= n < reports.len(),
        reports[n].status == "ok"@,
    ensures
        refused_lines(reports, n + 1) == refused_lines(reports, n) + ("  hunk"@ + dec(
            reports[n].index as nat,
        ) + " "@ + reports[n].kind + ": ok (not applied — all-or-nothing)\n"@),
{
}

/// A summary names each file in a column, its number of lines where it has any, and what was
/// last done to it.
pub proof fn summary_line_names_the_file(e: EntryView)
    ensures
        e.line_count > 0 ==> summary_line(e) == "  "@ + left_aligned(e.path, 50) + " "@
            + right_aligned(dec(e.line_count as nat) + "L"@, 6) + "  ("@ + e.op + ")\n"@,
        e.line_count <= 0 ==> summary_line(e) == "  "@ + left_aligned(e.path, 50) + " "@
            + right_aligned("—"@, 6) + "  ("@ + e.op + ")\n"@,
{
}

/// A preview of a write that would change nothing says so.
pub proof fn empty_preview_says_so(call: WriteCall, before: Seq<char>)
    requires
        written_view(call, Some(before)) == lf_view(before),
    ensures
        preview_text(call, Some(before)) == "[DRY RUN] "@ + call.path@ + " — "@ + size_text(
            call.content@,
        ) + " (no changes would be made)"@,
{
}

/// A write that leaves a file as it was says so.
pub proof fn unchanged_write_says_so(call: WriteCall, before: Seq<char>)
    requires
        !call.append,
        lf_view(before) == lf_view(call.content@),
    ensures
        written_text(call, Some(before)) == "[OK] "@ + call.path@ + " — "@ + size_text(call.content@)
            + " (no changes)"@,
{
}

} // verus!
