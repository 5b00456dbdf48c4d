//! What holds of every call of the editor.

use vstd::prelude::*;

use crate::edit::handler::{
    asks_for, call_error, edit_decision, filled, first_bad, mode_of, sent_hunks, step_after,
    text_decision, DecisionView, EditCall, EditStep,
};
use crate::edit::hunk::{describes, hunk_error, Hunk};
use crate::edit::locate::{ErrorView, LocatedView};
use crate::edit::read::{
    anchored_reply, around, content_reply, range_reply, read_answer, request_of, whole_reply,
    FileRead, ReplyView, RequestView,
};
use crate::edit::render::placed_count;
use crate::edit::transaction::{edit_outcome, Mode, ReportView};
use crate::file_shared::{crlf, hash_of, lf_view, with_crlf};
use crate::format::byte_len;
use crate::json::{arr_at, member, opt_text, str_at, texts, u64_at, Json};
use crate::laws::read::shown_lines;
use crate::lines::{nl, split_nl};
use crate::numbered::{cost, line_count, listing};
use crate::refusal::RefusalView;

verus! {

/// The arguments of an edit are in order exactly when they name a path, no more than 64 hunks,
/// each of which is one, and, where they name a mode, one that is known.
pub proof fn edit_arguments_are_checked(args: Json, items: Seq<Json>)
    requires
        arr_at(args, "hunks"@) == Some(items) || (arr_at(args, "hunks"@) is None && items
            == Seq::<Json>::empty()),
    ensures
        ({
            let path = str_at(args, "path"@);
            &&& path is None || path->0.len() == 0 ==> call_error(args) is Some
            &&& path is Some && path->0.len() > 0 && items.len() == 0 ==> call_error(args) is None
            &&& path is Some && path->0.len() > 0 && items.len() > 0 ==> (call_error(args) is None
                <==> items.len() <= 64 && (forall|i: int|
                0 <= i < items.len() ==> hunk_error(#[trigger] items[i]) is None) && (str_at(
                args,
                "mode"@,
            ) is None || str_at(args, "mode"@) == Some("strict"@) || str_at(args, "mode"@) == Some(
                "partial"@,
            )))
        }),
{
    assert(items == sent_hunks(args));
    let n = items.len() as int;
    lemma_first_bad(items, n);
    let good = forall|i: int| 0 <= i < items.len() ==> hunk_error(#[trigger] items[i]) is None;
    assert(first_bad(items, n) is None <==> good);
    let mode = str_at(args, "mode"@);
    assert(mode_of(args) is Some <==> mode is None || mode == Some("strict"@) || mode == Some(
        "partial"@,
    ));
    if filled(args, "path"@) is Some && n > 0 {
        assert(call_error(args) is None <==> n <= 64 && good && mode_of(args) is Some);
    }
}

proof fn lemma_first_bad(items: Seq<Json>, n: int)
    requires
        0 <= n <= items.len(),
    ensures
        first_bad(items, n) is None <==> forall|i: int|
            0 <= i < n ==> hunk_error(#[trigger] items[i]) is None,
        first_bad(items, n) matches Some(p) ==> 0 <= p.0 < n && hunk_error(items[p.0]) == Some(p.1)
            && forall|i: int| 0 <= i < p.0 ==> hunk_error(#[trigger] items[i]) is None,
    decreases n,
{
    if n > 0 {
        lemma_first_bad(items, n - 1);
    }
}

/// Of several bad hunks the first is named.
pub proof fn first_bad_hunk_is_named(items: Seq<Json>, i: int)
    requires
        0 <= i < items.len(),
        hunk_error(items[i]) is Some,
        forall|k: int| 0 <= k < i ==> hunk_error(#[trigger] items[k]) is None,
    ensures
        first_bad(items, items.len() as int) == Some((i, hunk_error(items[i])->0)),
{
    lemma_first_bad(items, items.len() as int);
}

/// An edit is what its arguments ask for: strict unless they say partial, tried out only where
/// they say so, and bound to a fingerprint only where they name one.
pub proof fn edit_is_as_asked_for(args: Json, call: EditCall)
    requires
        asks_for(args, call),
    ensures
        str_at(args, "path"@) == Some(call.path@),
        call.mode == Mode::Partial <==> str_at(args, "mode"@) == Some("partial"@),
        call.dry_run <==> member(args, "dry_run"@) == Some(Json::Bool(true)),
        str_at(args, "expected_hash"@) matches Some(h) ==> (h.len() > 0 ==> opt_text(
            call.expected_hash,
        ) == Some(h)),
        str_at(args, "expected_hash"@) is None ==> call.expected_hash is None,
        arr_at(args, "hunks"@) matches Some(items) ==> call.hunks@.len() == items.len() && forall|
            i: int,
        |
            0 <= i < items.len() ==> describes(items[i], #[trigger] call.hunks@[i]),
{
    reveal_strlit("strict");
    reveal_strlit("partial");
    assert("strict"@.len() == 6 && "partial"@.len() == 7);
}

/// What becomes of an edit: it is refused where the file is no text, or is gone and a
/// fingerprint is named; it is stale exactly where the file's fingerprint is not the one
/// named; else the hunks decide, on an empty text where there is no file.
pub proof fn edit_is_decided_by_the_file(call: EditCall, file: FileRead)
    ensures
        file is NotUtf8 ==> (edit_decision(call, file) matches DecisionView::Refuse(r) && r.code
            == "NOT_UTF8_TEXT"@),
        file is Failed ==> (edit_decision(call, file) matches DecisionView::Refuse(r) && r.code
            == "READ_FAILED"@),
        file is Missing && call.expected_hash is Some ==> (edit_decision(
            call,
            file,
        ) matches DecisionView::Refuse(r) && r.code == "FILE_NOT_FOUND"@),
        file is Missing && call.expected_hash is None ==> edit_decision(call, file)
            == text_decision(call.path@, call.hunks@, texts(call.notes@), call.mode, None),
        file matches FileRead::Text(raw) ==> {
            let now = hash_of(lf_view(raw@));
            let named = opt_text(call.expected_hash);
            &&& named is Some && named->0.len() > 0 && named != Some(now) ==> (edit_decision(
                call,
                file,
            ) matches DecisionView::Stale { current_hash, .. } && current_hash == now)
            &&& named is None || named->0.len() == 0 || named == Some(now) ==> edit_decision(
                call,
                file,
            ) == text_decision(
                call.path@,
                call.hunks@,
                texts(call.notes@),
                call.mode,
                Some(raw@),
            )
        },
{
}

/// What the hunks decide: where they write nothing the edit is rejected under their code;
/// else the edited text is written, in the line endings of the file.
pub proof fn committed_text_is_the_edited_text(
    path: Seq<char>,
    hunks: Seq<Hunk>,
    notes: Seq<Seq<char>>,
    mode: Mode,
    raw: Option<Seq<char>>,
)
    ensures
        ({
            let on_disk = match raw {
                Some(r) => r,
                None => Seq::empty(),
            };
            let o = edit_outcome(lf_view(on_disk), hunks, notes, mode);
            let d = text_decision(path, hunks, notes, mode, raw);
            &&& o.edited is None ==> (d matches DecisionView::Reject { code, outcome, .. }
                && outcome == o && Some(code) == o.code)
            &&& o.edited matches Some(e) ==> (d matches DecisionView::Commit {
                content,
                before,
                base_hash,
                complete,
                outcome,
                ..
            } && {
                &&& outcome == o
                &&& before == raw
                &&& complete <==> o.code is None
                &&& raw is Some ==> base_hash == Some(hash_of(lf_view(on_disk)))
                &&& raw is None ==> base_hash is None
                &&& on_disk.contains('\r') ==> content == with_crlf(e)
                &&& !on_disk.contains('\r') ==> content == e
            })
        }),
{
    crate::edit::handler::lemma_rejection_has_code(
        lf_view(
            match raw {
                Some(r) => r,
                None => Seq::empty(),
            },
        ),
        hunks,
        notes,
        mode,
    );
}

/// Lines with CRLF between them: every newline gets its carriage return, and nothing else
/// changes.
pub proof fn crlf_stands_between_the_lines(a: Seq<char>, b: Seq<char>)
    requires
        !a.contains('\n'),
    ensures
        with_crlf(a) == a,
        with_crlf(a.push('\n') + b) == a + crlf() + with_crlf(b),
    decreases a.len(),
{
    lemma_nl_at(a.push('\n') + b);
    if a.len() == 0 {
        let s = a.push('\n') + b;
        assert(s[0] == '\n');
        assert(s.skip(1) =~= b);
        assert(a + crlf() + with_crlf(b) =~= crlf() + with_crlf(b));
        assert(with_crlf(a) =~= a);
    } else {
        let t = a.skip(1);
        assert(!t.contains('\n')) by {
            if t.contains('\n') {
                let i = choose|i: int| 0 <= i < t.len() && t[i] == '\n';
                assert(a[i + 1] == '\n');
            }
        }
        assert(a[0] != '\n');
        lemma_nl_at(a);
        crlf_stands_between_the_lines(t, b);
        let s = a.push('\n') + b;
        assert(s[0] == a[0]);
        assert(s.skip(1) =~= t.push('\n') + b);
        assert(seq![a[0]] + t =~= a);
        assert(seq![a[0]] + (t + crlf() + with_crlf(b)) =~= a + crlf() + with_crlf(b));
    }
}

proof fn lemma_nl_at(s: Seq<char>)
    requires
        s.len() > 0,
    ensures
        crate::search::at(s, nl(), 0) <==> s[0] == '\n',
{
    assert(s.subrange(0, 1) =~= seq![s[0]]);
    assert(s.subrange(0, 1)[0] == s[0]);
    assert(nl()[0] == '\n');
}

/// Only an edit that applies is written, and not where it is only tried out.
pub proof fn only_applied_edits_are_written(d: DecisionView, dry_run: bool)
    ensures
        step_after(d, dry_run) == EditStep::Write <==> d is Commit && !dry_run,
        step_after(d, dry_run) == EditStep::Keep <==> d is Commit && dry_run,
        step_after(d, dry_run) == EditStep::Answer <==> !(d is Commit),
{
}

/// What a read through the editor asks for: a range where it names lines, the surroundings of
/// an anchor where it names one, else the whole file. Both together, context without an
/// anchor, a line 0, lines in the wrong order and more than 400 of them are refused.
pub proof fn read_request_is_checked(args: Json)
    requires
        u64_at(args, "start_line"@) matches Some(n) ==> n <= usize::MAX,
        u64_at(args, "end_line"@) matches Some(n) ==> n <= usize::MAX,
    ensures
        ({
            let start = u64_at(args, "start_line"@);
            let end = u64_at(args, "end_line"@);
            let anchor = match str_at(args, "anchor"@) {
                Some(a) => a.len() > 0,
                None => false,
            };
            let context = member(args, "context_before"@) is Some || member(
                args,
                "context_after"@,
            ) is Some;
            let range = start is Some || end is Some;
            let r = request_of(args);
            &&& range && (anchor || context) ==> r is Err
            &&& !anchor && context ==> r is Err
            &&& start == Some(0u64) || end == Some(0u64) ==> r is Err
            &&& start is Some && end is Some && end->0 < start->0 ==> r is Err
            &&& start is Some && end is Some && end->0 - start->0 >= 400 ==> r is Err
            &&& range && !anchor && !context && start != Some(0u64) && end != Some(0u64) && !(
            start is Some && end is Some && (end->0 < start->0 || end->0 - start->0 >= 400)) ==> (
            r matches Ok(q) && q matches RequestView::Range { start: s, end: e } && (s is Some
                <==> start is Some) && (e is Some <==> end is Some) && (start is Some ==> s->0
                == start->0) && (end is Some ==> e->0 == end->0))
            &&& !range && !anchor && !context ==> r == Ok::<RequestView, RefusalView>(
                RequestView::Whole,
            )
            &&& !range && anchor && !context ==> r == Ok::<RequestView, RefusalView>(
                RequestView::Anchored {
                    anchor: str_at(args, "anchor"@)->0,
                    before: 10,
                    after: 10,
                },
            )
        }),
{
}

/// A range of lines is shown as it was asked for, where the file has it and it fits an
/// answer; nothing is cut.
pub proof fn range_is_shown_whole(
    content: Seq<char>,
    path: Seq<char>,
    start: Option<usize>,
    end: Option<usize>,
)
    requires
        start is Some && end is Some ==> start->0 <= end->0,
        start matches Some(s) ==> s >= 1,
    ensures
        ({
            let total = line_count(content) as int;
            let first = match start {
                Some(s) => s as int,
                None => 1,
            };
            let last = match end {
                Some(e) => e as int,
                None => total,
            };
            let r = range_reply(content, path, start, end);
            &&& first > total + 1 || last > total ==> (r matches Err(e) && e.code
                == "LINE_OUT_OF_RANGE"@ && e.hash == Some(hash_of(content)) && e.total_lines == Some(
                total as usize,
            ))
            &&& first <= total + 1 && last <= total ==> {
                &&& cost(split_nl(content), first - 1, last) > 24000 ==> (r matches Err(e) && e.code
                    == "RANGE_TOO_LARGE"@)
                &&& cost(split_nl(content), first - 1, last) <= 24000 ==> (r matches Ok(v) && v.text
                    == shown_lines(content, first, last) && v.shown == Some((first, last)) && v.hash
                    == hash_of(content) && v.total_lines == total && !v.truncated)
            }
        }),
{
    let total = line_count(content) as int;
    let first = match start {
        Some(s) => s as int,
        None => 1,
    };
    let last = match end {
        Some(e) => e as int,
        None => total,
    };
    lemma_listing(content, first, last);
}

proof fn lemma_listing(content: Seq<char>, first: int, last: int)
    requires
        first >= 1,
    ensures
        shown_lines(content, first, last) == listing(split_nl(content), first - 1, last),
{
    assert(Seq::new(
        (last - first + 1) as nat,
        |k: int|
            "L"@ + crate::format::dec((first + k) as nat) + ": "@ + split_nl(content)[first + k - 1],
    ) =~= Seq::new(
        (last - (first - 1)) as nat,
        |k: int| crate::numbered::numbered_line(split_nl(content), first - 1 + k),
    ));
}

/// The lines shown around an anchor: those of the anchor itself, and before and behind them
/// as many as are asked for, or as the file has.
pub proof fn surroundings_reach_as_far_as_asked(l: LocatedView, total: int, before: int, after: int)
    requires
        0 <= l.start_line,
        1 <= l.win_lines,
        l.start_line + l.win_lines <= total,
        0 <= before,
        0 <= after,
    ensures
        ({
            let (first, last) = around(l, total, before, after);
            let end = l.start_line + l.win_lines;
            &&& 0 <= first <= l.start_line
            &&& end <= last <= total
            &&& before <= l.start_line ==> first == l.start_line - before
            &&& before > l.start_line ==> first == 0
            &&& end + after <= total ==> last == end + after
            &&& end + after > total ==> last == total
        }),
{
}

/// A read around an anchor shows its surroundings and says where it was found; an anchor that
/// cannot be placed is refused.
pub proof fn anchored_read_shows_the_surroundings(
    content: Seq<char>,
    path: Seq<char>,
    anchor: Seq<char>,
    before: int,
    after: int,
    l: LocatedView,
)
    ensures
        ({
            let placed = crate::edit::locate::anchor_place(content, anchor);
            let r = anchored_reply(content, path, anchor, before, after);
            let total = line_count(content) as int;
            &&& placed == Ok::<LocatedView, ErrorView>(l) && l.start_line >= 0 ==> {
                let (first, last) = around(l, total, before, after);
                &&& cost(split_nl(content), first, last) <= 24000 && first >= 0 ==> (r matches Ok(v)
                    && v.text == shown_lines(content, first + 1, last) && v.shown == Some(
                    (first + 1, last),
                ) && v.hash == hash_of(content) && (v.found matches Some(f) && f.anchor_line
                    == l.start_line + 1 && f.tier == l.tier && f.score == l.score))
                &&& cost(split_nl(content), first, last) > 24000 ==> (r matches Err(e) && e.code
                    == "RANGE_TOO_LARGE"@)
            }
            &&& placed matches Err(e) ==> {
                &&& e is Ambiguous ==> (r matches Err(x) && x.code == "ANCHOR_AMBIGUOUS"@ && x.hash
                    == Some(hash_of(content)))
                &&& e is NoMatch ==> (r matches Err(x) && x.code == "NO_MATCH"@ && x.hash == Some(
                    hash_of(content),
                ))
                &&& e is Underspecified ==> (r matches Err(x) && x.code == "UNDERSPECIFIED"@)
            }
        }),
{
    let total = line_count(content) as int;
    if crate::edit::locate::anchor_place(content, anchor) == Ok::<LocatedView, ErrorView>(l)
        && l.start_line >= 0 {
        let (first, last) = around(l, total, before, after);
        if first >= 0 {
            lemma_listing(content, first + 1, last);
        }
    }
}

/// A whole file is shown as it is, up to 65536 bytes; a longer one is cut, and says so.
pub proof fn whole_file_is_shown(content: Seq<char>)
    ensures
        byte_len(content) <= 65536 ==> whole_reply(content).text == content && !whole_reply(
            content,
        ).truncated,
        byte_len(content) > 65536 ==> whole_reply(content).truncated,
        whole_reply(content).hash == hash_of(content),
        whole_reply(content).total_lines == line_count(content),
        whole_reply(content).shown is None,
{
}

/// A read is answered from the newline view of the file, and what is no text is refused.
pub proof fn read_answers_from_the_file(path: Seq<char>, args: Json, file: FileRead)
    requires
        request_of(args) is Ok,
    ensures
        file matches FileRead::Text(raw) ==> read_answer(path, args, file) == content_reply(
            lf_view(raw@),
            path,
            request_of(args)->Ok_0,
        ),
        file is Missing ==> (read_answer(path, args, file) matches Err(e) && e.code
            == "FILE_NOT_FOUND"@),
        file is NotUtf8 ==> (read_answer(path, args, file) matches Err(e) && e.code
            == "NOT_UTF8_TEXT"@),
        file is Failed ==> (read_answer(path, args, file) matches Err(e) && e.code == "READ_FAILED"@),
        file is Text && request_of(args)->Ok_0 is Whole ==> read_answer(path, args, file) == Ok::<
            ReplyView,
            RefusalView,
        >(whole_reply(lf_view(file->Text_0@))),
{
}

/// The surroundings of an anchor are as large as they are asked for, up to 100 lines on either
/// side, and ten where nothing is said.
pub proof fn surroundings_are_as_large_as_asked(args: Json, a: Seq<char>)
    requires
        str_at(args, "anchor"@) == Some(a),
        a.len() > 0,
        member(args, "start_line"@) is None,
        member(args, "end_line"@) is None,
    ensures
        ({
            let size = |v: Option<Json>| match v {
                Some(Json::Uint(n)) => n as usize as int,
                _ => 10int,
            };
            let before = size(member(args, "context_before"@));
            let after = size(member(args, "context_after"@));
            let r = request_of(args);
            &&& before > 100 || after > 100 ==> r is Err
            &&& before <= 100 && after <= 100 ==> (r matches Ok(q) && q matches RequestView::Anchored {
                anchor,
                before: b,
                after: f,
            } && anchor == a && b == before && f == after)
        }),
{
}

/// A committed edit says how many of its hunks were placed.
pub proof fn placed_hunks_are_counted(reports: Seq<ReportView>, n: int)
    requires
        0 <= n <= reports.len(),
    ensures
        placed_count(reports, n) == reports.take(n).filter(
            |r: ReportView| r.status == "ok"@,
        ).len(),
    decreases n,
{
    reveal(Seq::filter);
    if n > 0 {
        placed_hunks_are_counted(reports, n - 1);
        assert(reports.take(n).drop_last() =~= reports.take(n - 1));
        assert(reports.take(n).last() == reports[n - 1]);
    }
}

/// The number of hunks that a committed edit says it applied is that of the hunks placed.
pub proof fn committed_edit_counts_its_hunks(
    path: Seq<char>,
    hunks: Seq<Hunk>,
    notes: Seq<Seq<char>>,
    mode: Mode,
    raw: Option<Seq<char>>,
)
    ensures
        text_decision(path, hunks, notes, mode, raw) matches DecisionView::Commit {
            applied,
            outcome,
            ..
        } ==> applied == outcome.reports.filter(|r: ReportView| r.status == "ok"@).len(),
{
    if let DecisionView::Commit { outcome, .. } = text_decision(path, hunks, notes, mode, raw) {
        let n = outcome.reports.len() as int;
        placed_hunks_are_counted(outcome.reports, n);
        assert(outcome.reports.take(n) =~= outcome.reports);
    }
}

} // verus!
