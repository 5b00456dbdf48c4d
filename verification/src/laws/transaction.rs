//! What holds of every edit as a whole.

use vstd::prelude::*;

use crate::edit::apply::{
    apart, clash_means_overlap, edited_text, goes_before, lemma_ordered_staggered, newlines,
    ordered, overlap, put, rewritten, shift_at, stage, staggered,
};
use crate::edit::candidate::{candidate_at, candidates_at, marked, rows, side_by_side, snippet};
use crate::edit::hunk::{describes, hunk_error, kind_of, Hunk};
use crate::edit::locate::ErrorView;
use crate::edit::resolve::{resolved, OpView};
use crate::edit::transaction::{
    all_ops, all_reports, bare, edit_outcome, error_code, failures, final_places, first_failure,
    ops_of, overwrites, Mode,
};
use crate::file_shared::{diff_text, lf_view};
use crate::format::{byte_len, fitting};
use crate::json::{member, str_at, Json};
use crate::laws::text::as_much_as_fits;
use crate::lines::{join, nl};
use crate::outside::rope_line_index;
use crate::text::trim_end;

verus! {

/// The operations of an edit are those of the hunks that could be placed, at each of their
/// places, and no others.
pub proof fn placed_hunks_give_the_operations(text: Seq<char>, hunks: Seq<Hunk>, n: int)
    requires
        0 <= n <= hunks.len(),
    ensures
        forall|i: int, k: int|
            0 <= i < n && (final_places(text, hunks[i]) matches Ok(locs) && 0 <= k < locs.len())
                ==> all_ops(text, hunks, n).contains(
                (i, #[trigger] resolved(text, hunks[i], final_places(text, hunks[i])->Ok_0[k])),
            ),
        forall|m: int|
            0 <= m < all_ops(text, hunks, n).len() ==> {
                let op = #[trigger] all_ops(text, hunks, n)[m];
                &&& 0 <= op.0 < n
                &&& final_places(text, hunks[op.0]) is Ok
                &&& exists|k: int|
                    0 <= k < final_places(text, hunks[op.0])->Ok_0.len() && op.1
                        == #[trigger] resolved(
                        text,
                        hunks[op.0],
                        final_places(text, hunks[op.0])->Ok_0[k],
                    )
            },
    decreases n,
{
    if n > 0 {
        placed_hunks_give_the_operations(text, hunks, n - 1);
        let all = all_ops(text, hunks, n);
        let front = all_ops(text, hunks, n - 1);
        let h = hunks[n - 1];
        assert forall|i: int, k: int|
            0 <= i < n && (final_places(text, hunks[i]) matches Ok(locs) && 0 <= k
                < locs.len()) implies all.contains(
            (i, #[trigger] resolved(text, hunks[i], final_places(text, hunks[i])->Ok_0[k])),
        ) by {
            let op = (i, resolved(text, hunks[i], final_places(text, hunks[i])->Ok_0[k]));
            if i < n - 1 {
                assert(front.contains(op));
                let m = choose|m: int| 0 <= m < front.len() && front[m] == op;
                assert(all[m] == op);
            } else {
                assert(all[front.len() + k] == op);
            }
        }
        assert forall|m: int| 0 <= m < all.len() implies {
            let op = #[trigger] all[m];
            &&& 0 <= op.0 < n
            &&& final_places(text, hunks[op.0]) is Ok
            &&& exists|k: int|
                0 <= k < final_places(text, hunks[op.0])->Ok_0.len() && op.1 == #[trigger] resolved(
                    text,
                    hunks[op.0],
                    final_places(text, hunks[op.0])->Ok_0[k],
                )
        } by {
            if m < front.len() {
                assert(all[m] == front[m]);
            } else {
                let locs = final_places(text, h)->Ok_0;
                let k = m - front.len();
                assert(all[m] == ops_of(text, n - 1, h, locs)[k]);
                assert(all[m].1 == resolved(text, h, locs[k]));
            }
        }
    }
}

/// What an edit writes, in either mode, is the one text with the operations of the hunks
/// that could be placed; its diff shows that change, and one shift stands for each of them.
pub proof fn edit_writes_what_was_placed(
    text: Seq<char>,
    hunks: Seq<Hunk>,
    notes: Seq<Seq<char>>,
    mode: Mode,
)
    ensures
        ({
            let o = edit_outcome(text, hunks, notes, mode);
            let ops = bare(all_ops(text, hunks, hunks.len() as int));
            &&& o.notes == notes
            &&& o.edited matches Some(e) ==> {
                &&& e == edited_text(text, ops)
                &&& apart(ops)
                &&& o.diff == diff_text(text, e, "file"@)
                &&& o.shifts.len() == ops.len()
                &&& forall|k: int|
                    0 <= k < ops.len() ==> #[trigger] o.shifts[k] == shift_at(text, ordered(ops), k)
            }
        }),
{
    clash_means_overlap(bare(all_ops(text, hunks, hunks.len() as int)));
}

/// An edit is written, without a code, when every hunk can be placed, no two of them get in
/// each other's way, and none replaces the whole file beside another.
pub proof fn placeable_edit_is_written(
    text: Seq<char>,
    hunks: Seq<Hunk>,
    notes: Seq<Seq<char>>,
    mode: Mode,
)
    requires
        forall|i: int| 0 <= i < hunks.len() ==> final_places(text, #[trigger] hunks[i]) is Ok,
        apart(bare(all_ops(text, hunks, hunks.len() as int))),
        hunks.len() <= 1 || forall|i: int|
            0 <= i < hunks.len() ==> !(#[trigger] hunks[i] is Overwrite),
    ensures
        edit_outcome(text, hunks, notes, mode).edited is Some,
        edit_outcome(text, hunks, notes, mode).code is None,
        edit_outcome(text, hunks, notes, mode).message is None,
{
    lemma_no_failure(text, hunks, hunks.len() as int);
    clash_means_overlap(bare(all_ops(text, hunks, hunks.len() as int)));
    if hunks.len() > 1 {
        lemma_no_overwrite(hunks, hunks.len() as int);
    }
}

proof fn lemma_no_overwrite(hunks: Seq<Hunk>, n: int)
    requires
        0 <= n <= hunks.len(),
        forall|i: int| 0 <= i < hunks.len() ==> !(#[trigger] hunks[i] is Overwrite),
    ensures
        overwrites(hunks, n) == 0,
    decreases n,
{
    if n > 0 {
        lemma_no_overwrite(hunks, n - 1);
    }
}

proof fn lemma_no_failure(text: Seq<char>, hunks: Seq<Hunk>, n: int)
    requires
        0 <= n <= hunks.len(),
        forall|i: int| 0 <= i < hunks.len() ==> final_places(text, #[trigger] hunks[i]) is Ok,
    ensures
        first_failure(text, hunks, n) is None,
        failures(text, hunks, n) == 0,
    decreases n,
{
    if n > 0 {
        lemma_no_failure(text, hunks, n - 1);
    }
}

/// An edit with a hunk that cannot be placed carries the code of the first such hunk, unless
/// it is refused for another reason. A partial edit still writes, as soon as one hunk could
/// be placed and none of those overlap.
pub proof fn first_failed_hunk_gives_the_code(
    text: Seq<char>,
    hunks: Seq<Hunk>,
    notes: Seq<Seq<char>>,
    i: int,
)
    requires
        0 <= i < hunks.len(),
        final_places(text, hunks[i]) is Err,
        forall|k: int| 0 <= k < i ==> final_places(text, #[trigger] hunks[k]) is Ok,
        hunks.len() == 1 || forall|k: int|
            0 <= k < hunks.len() ==> !(#[trigger] hunks[k] is Overwrite),
    ensures
        ({
            let why = final_places(text, hunks[i])->Err_0;
            let code = if why is NoMatch {
                "NO_MATCH"@
            } else if why is Ambiguous {
                "AMBIGUOUS_MATCH"@
            } else if why is Underspecified {
                "UNDERSPECIFIED"@
            } else {
                "INVALID_REGEX"@
            };
            let ops = bare(all_ops(text, hunks, hunks.len() as int));
            &&& edit_outcome(text, hunks, notes, Mode::Strict).code == Some(code)
            &&& edit_outcome(text, hunks, notes, Mode::Strict).edited is None
            &&& ops.len() == 0 ==> edit_outcome(text, hunks, notes, Mode::Partial).code == Some(
                code,
            ) && edit_outcome(text, hunks, notes, Mode::Partial).edited is None
            &&& ops.len() > 0 && apart(ops) ==> edit_outcome(text, hunks, notes, Mode::Partial).code
                == Some(code) && edit_outcome(text, hunks, notes, Mode::Partial).edited is Some
            &&& !apart(ops) ==> edit_outcome(text, hunks, notes, Mode::Partial).code == Some(
                "OVERLAPPING_HUNKS"@,
            )
        }),
{
    lemma_first_failure_at(text, hunks, i, hunks.len() as int);
    clash_means_overlap(bare(all_ops(text, hunks, hunks.len() as int)));
    if hunks.len() > 1 {
        lemma_no_overwrite(hunks, hunks.len() as int);
    }
}

#[verifier::rlimit(60)]
proof fn lemma_first_failure_at(text: Seq<char>, hunks: Seq<Hunk>, i: int, n: int)
    requires
        0 <= i < n <= hunks.len(),
        final_places(text, hunks[i]) is Err,
        forall|k: int| 0 <= k < i ==> final_places(text, #[trigger] hunks[k]) is Ok,
    ensures
        first_failure(text, hunks, n) == Some(error_code(final_places(text, hunks[i])->Err_0)),
    decreases n,
{
    if i < n - 1 {
        lemma_first_failure_at(text, hunks, i, n - 1);
    } else {
        lemma_none_before(text, hunks, i);
    }
}

proof fn lemma_none_before(text: Seq<char>, hunks: Seq<Hunk>, n: int)
    requires
        0 <= n <= hunks.len(),
        forall|k: int| 0 <= k < n ==> final_places(text, #[trigger] hunks[k]) is Ok,
    ensures
        first_failure(text, hunks, n) is None,
    decreases n,
{
    if n > 0 {
        lemma_none_before(text, hunks, n - 1);
    }
}

/// Overlapping operations are refused by a code of their own when every hunk could be placed,
/// and so is a replacement of the whole file beside another hunk.
pub proof fn conflicting_hunks_have_their_codes(
    text: Seq<char>,
    hunks: Seq<Hunk>,
    notes: Seq<Seq<char>>,
    mode: Mode,
)
    ensures
        (exists|i: int| 0 <= i < hunks.len() && #[trigger] hunks[i] is Overwrite) && hunks.len() > 1
            ==> edit_outcome(text, hunks, notes, mode).code == Some("OVERWRITE_EXCLUSIVE"@),
        (forall|i: int| 0 <= i < hunks.len() ==> !(#[trigger] hunks[i] is Overwrite)) && (forall|
            i: int,
        |
            0 <= i < hunks.len() ==> final_places(text, #[trigger] hunks[i]) is Ok) && !apart(
            bare(all_ops(text, hunks, hunks.len() as int)),
        ) ==> edit_outcome(text, hunks, notes, mode).code == Some("OVERLAPPING_HUNKS"@),
{
    clash_means_overlap(bare(all_ops(text, hunks, hunks.len() as int)));
    if exists|i: int| 0 <= i < hunks.len() && #[trigger] hunks[i] is Overwrite {
        let i = choose|i: int| 0 <= i < hunks.len() && #[trigger] hunks[i] is Overwrite;
        lemma_some_overwrite(hunks, i, hunks.len() as int);
    } else {
        lemma_no_overwrite(hunks, hunks.len() as int);
    }
    if forall|i: int| 0 <= i < hunks.len() ==> final_places(text, #[trigger] hunks[i]) is Ok {
        lemma_no_failure(text, hunks, hunks.len() as int);
    }
}

proof fn lemma_some_overwrite(hunks: Seq<Hunk>, i: int, n: int)
    requires
        0 <= i < n <= hunks.len(),
        hunks[i] is Overwrite,
    ensures
        overwrites(hunks, n) > 0,
    decreases n,
{
    if i < n - 1 {
        lemma_some_overwrite(hunks, i, n - 1);
    }
}

/// Each hunk has its report, under its own number: where it was placed it says by which tier
/// and at which lines, counted from 1, and where not it says why.
pub proof fn every_hunk_is_reported(text: Seq<char>, hunks: Seq<Hunk>, i: int)
    requires
        0 <= i < hunks.len(),
        final_places(text, hunks[i]) matches Ok(locs) ==> locs.len() > 0,
    ensures
        all_reports(text, hunks).len() == hunks.len(),
        ({
            let r = all_reports(text, hunks)[i];
            &&& r.index == i
            &&& r.kind == kind_of(hunks[i])
            &&& final_places(text, hunks[i]) matches Ok(locs) ==> {
                &&& r.status == "ok"@
                &&& r.tier == Some(locs[0].tier)
                &&& r.score == Some(locs[0].score)
                &&& r.code is None
                &&& r.used_hint == locs[0].hint_line
                &&& locs[0].win_lines > 0 ==> r.line_range == Some(
                    (locs[0].start_line + 1, locs[0].start_line + locs[0].win_lines),
                )
                &&& locs[0].win_lines == 0 ==> r.line_range is None
                &&& locs.len() == 1 ==> r.note == Some(locs[0].note)
            }
            &&& final_places(text, hunks[i]) matches Err(e) ==> {
                &&& r.status == "error"@
                &&& r.tier is None
                &&& r.line_range is None
                &&& e is NoMatch ==> r.code == Some("NO_MATCH"@)
                &&& e is Ambiguous ==> r.code == Some("AMBIGUOUS_MATCH"@)
                &&& e is Underspecified ==> r.code == Some("UNDERSPECIFIED"@)
                &&& e is InvalidRegex ==> r.code == Some("INVALID_REGEX"@)
                &&& e matches ErrorView::NoMatch { candidates, detail } ==> r.candidates == Some(
                    candidates,
                ) && r.detail == Some(detail)
                &&& e matches ErrorView::Ambiguous { candidates, detail } ==> r.candidates == Some(
                    candidates,
                ) && r.detail == Some(detail)
            }
        }),
{
}

/// Two insertions get in each other's way at one point only, an insertion and a replacement
/// where it lies strictly inside, and two replacements where they share a character.
pub proof fn overlapping_is_sharing(x: OpView, y: OpView, p: int)
    ensures
        overlap(x, y) <==> overlap(y, x),
        x is Insert && y is Insert ==> (overlap(x, y) <==> x.start() == y.start()),
        x is Replace && y is Replace && x.start() <= p < x.end() && y.start() <= p < y.end()
            ==> overlap(x, y),
        x is Replace && y is Replace && x.end() <= y.start() ==> !overlap(x, y),
        x is Insert && y is Replace && (x.start() <= y.start() || y.end() <= x.start())
            ==> !overlap(x, y),
        x is Insert && y is Replace && y.start() < x.start() < y.end() ==> overlap(x, y),
{
}

/// What stands before every operation, and what stands behind every one, is left as it is.
pub proof fn text_outside_the_operations_stays(text: Seq<char>, ops: Seq<OpView>, q: int)
    requires
        0 <= q <= text.len(),
        apart(ops),
        forall|i: int| 0 <= i < ops.len() ==> (#[trigger] ops[i]).fits(text.len() as int),
    ensures
        (forall|i: int| 0 <= i < ops.len() ==> q <= (#[trigger] ops[i]).start()) ==> text.take(
            q,
        ).is_prefix_of(edited_text(text, ops)),
        (forall|i: int| 0 <= i < ops.len() ==> (#[trigger] ops[i]).end() <= q) ==> edited_text(
            text,
            ops,
        ).len() >= text.len() - q && edited_text(text, ops).skip(
            edited_text(text, ops).len() - (text.len() - q),
        ) == text.skip(q),
{
    let n = text.len() as int;
    lemma_ordered_staggered(ops, n);
    let all = ordered(ops);
    if forall|i: int| 0 <= i < ops.len() ==> q <= (#[trigger] ops[i]).start() {
        assert forall|i: int| 0 <= i < all.len() implies q <= (#[trigger] all[i]).start() by {
            assert(ops.contains(all[i]));
        }
        lemma_front_stays(text, all, q);
    }
    if forall|i: int| 0 <= i < ops.len() ==> (#[trigger] ops[i]).end() <= q {
        assert forall|i: int| 0 <= i < all.len() implies (#[trigger] all[i]).end() <= q by {
            assert(ops.contains(all[i]));
        }
        lemma_back_stays(text, all, 0, q);
    }
}

proof fn lemma_front_stays(text: Seq<char>, ops: Seq<OpView>, q: int)
    requires
        0 <= q <= text.len(),
        forall|i: int|
            0 <= i < ops.len() ==> q <= (#[trigger] ops[i]).start() && ops[i].fits(
                text.len() as int,
            ),
    ensures
        text.take(q).is_prefix_of(rewritten(text, ops, 0)),
{
    let out = rewritten(text, ops, 0);
    if ops.len() == 0 {
        assert(out.take(q) =~= text.take(q));
    } else {
        let o = ops[ops.len() - 1];
        assert(out.take(q) =~= text.take(q));
    }
}

proof fn lemma_back_stays(text: Seq<char>, ops: Seq<OpView>, from: int, q: int)
    requires
        0 <= from <= q <= text.len(),
        staggered(ops, text.len() as int),
        forall|i: int| 0 <= i < ops.len() ==> from <= (#[trigger] ops[i]).start(),
        forall|i: int| 0 <= i < ops.len() ==> (#[trigger] ops[i]).end() <= q,
    ensures
        rewritten(text, ops, from).len() >= text.len() - q,
        rewritten(text, ops, from).skip(rewritten(text, ops, from).len() - (text.len() - q))
            == text.skip(q),
    decreases ops.len(),
{
    let out = rewritten(text, ops, from);
    let k = text.len() - q;
    if ops.len() == 0 {
        assert(out.skip(out.len() - k) =~= text.skip(q));
    } else {
        let o = ops[ops.len() - 1];
        let front = ops.drop_last();
        assert(o.fits(text.len() as int));
        assert forall|i: int| 0 <= i < front.len() implies o.end() <= (#[trigger] front[i]).start() by {
            assert(ops[ops.len() - 1].end() <= ops[i].start());
        }
        assert forall|i: int| 0 <= i < front.len() implies (#[trigger] front[i]).end() <= q by {
            assert(front[i] == ops[i]);
        }
        assert forall|i: int| 0 <= i < front.len() implies (#[trigger] front[i]).fits(
            text.len() as int,
        ) by {
            assert(front[i] == ops[i]);
        }
        assert forall|i: int, j: int| 0 <= i < j < front.len() implies (#[trigger] front[j]).end()
            <= (#[trigger] front[i]).start() by {
            assert(ops[j].end() <= ops[i].start());
        }
        lemma_back_stays(text, front, o.end(), q);
        let rest = rewritten(text, front, o.end());
        assert(out.skip(out.len() - k) =~= rest.skip(rest.len() - k));
    }
}

/// A change moves what follows by the lines it puts in, less those it takes out.
pub proof fn shift_is_the_difference_in_lines(text: Seq<char>, ops: Seq<OpView>, k: int)
    requires
        0 <= k < ops.len(),
    ensures
        shift_at(text, ops, k).1 == ops[k].text().filter(|c: char| c == '\n').len()
            - text.subrange(ops[k].start(), ops[k].end()).filter(|c: char| c == '\n').len(),
{
    lemma_newlines(ops[k].text());
    lemma_newlines(text.subrange(ops[k].start(), ops[k].end()));
}

proof fn lemma_newlines(s: Seq<char>)
    ensures
        newlines(s) == s.filter(|c: char| c == '\n').len(),
    decreases s.len(),
{
    reveal(Seq::filter);
    if s.len() > 0 {
        lemma_newlines(s.drop_last());
    }
}

/// A request is a hunk exactly when it names a kind that is known and has the fields that
/// kind needs.
pub proof fn hunk_needs_its_fields(v: Json, kind: Seq<char>)
    ensures
        str_at(v, "kind"@) is None ==> hunk_error(v) is Some,
        str_at(v, "kind"@) == Some(kind) ==> {
            let old = str_at(v, "old"@) is Some;
            let new = str_at(v, "new"@) is Some;
            let anchor = str_at(v, "anchor"@) is Some;
            &&& kind == "replace"@ ==> (hunk_error(v) is None <==> old && new)
            &&& kind == "overwrite"@ ==> (hunk_error(v) is None <==> new)
            &&& kind == "prepend_file"@ ==> (hunk_error(v) is None <==> new)
            &&& kind == "append_file"@ ==> (hunk_error(v) is None <==> new)
            &&& kind == "insert_after"@ ==> (hunk_error(v) is None <==> anchor && new)
            &&& kind == "insert_before"@ ==> (hunk_error(v) is None <==> anchor && new)
            &&& kind == "replace_inline"@ ==> (hunk_error(v) is None <==> anchor && old && new)
            &&& kind != "replace"@ && kind != "overwrite"@ && kind != "prepend_file"@ && kind
                != "append_file"@ && kind != "insert_after"@ && kind != "insert_before"@ && kind
                != "replace_inline"@ ==> hunk_error(v) is Some
        },
{
    reveal_strlit("replace");
    reveal_strlit("overwrite");
    reveal_strlit("prepend_file");
    reveal_strlit("append_file");
    reveal_strlit("insert_after");
    reveal_strlit("insert_before");
    reveal_strlit("replace_inline");
    assert("prepend_file"@[0] == 'p' && "insert_after"@[0] == 'i');
    assert("replace"@.len() == 7 && "overwrite"@.len() == 9 && "append_file"@.len() == 11);
    assert("prepend_file"@.len() == 12 && "insert_after"@.len() == 12);
    assert("insert_before"@.len() == 13 && "replace_inline"@.len() == 14);
}

/// The texts of a hunk are those of its request in the newline view, empty where the request
/// has none; a flag that the request does not have is off; a line hint of 0 counts as 1.
pub proof fn hunk_carries_its_request(v: Json, h: Hunk)
    requires
        describes(v, h),
    ensures
        h matches Hunk::Replace { old, new, context_before, context_after, replace_all, hint_line }
            ==> {
            &&& str_at(v, "old"@) matches Some(s) ==> old@ == lf_view(s)
            &&& str_at(v, "new"@) matches Some(s) ==> new@ == lf_view(s)
            &&& str_at(v, "context_before"@) matches Some(s) ==> context_before@ == lf_view(s)
            &&& str_at(v, "context_after"@) matches Some(s) ==> context_after@ == lf_view(s)
            &&& replace_all <==> member(v, "replace_all"@) == Some(Json::Bool(true))
            &&& member(v, "hint_line"@) is None ==> hint_line is None
            &&& member(v, "hint_line"@) == Some(Json::Uint(0)) ==> hint_line == Some(1usize)
        },
        h matches Hunk::InsertAfter { anchor, new, .. } ==> {
            &&& str_at(v, "kind"@) == Some("insert_after"@)
            &&& str_at(v, "anchor"@) matches Some(s) ==> anchor@ == lf_view(s)
            &&& str_at(v, "new"@) matches Some(s) ==> new@ == lf_view(s)
        },
        h matches Hunk::InsertBefore { anchor, new, .. } ==> {
            &&& str_at(v, "kind"@) == Some("insert_before"@)
            &&& str_at(v, "anchor"@) matches Some(s) ==> anchor@ == lf_view(s)
            &&& str_at(v, "new"@) matches Some(s) ==> new@ == lf_view(s)
        },
        h matches Hunk::ReplaceInline { anchor, old, new, replace_all, regex, .. } ==> {
            &&& str_at(v, "kind"@) == Some("replace_inline"@)
            &&& str_at(v, "anchor"@) matches Some(s) ==> anchor@ == lf_view(s)
            &&& str_at(v, "old"@) matches Some(s) ==> old@ == lf_view(s)
            &&& str_at(v, "new"@) matches Some(s) ==> new@ == lf_view(s)
            &&& replace_all <==> member(v, "replace_all"@) == Some(Json::Bool(true))
            &&& regex <==> member(v, "regex"@) == Some(Json::Bool(true))
        },
        h matches Hunk::Overwrite { new } ==> (str_at(v, "kind"@) == Some("overwrite"@) && (str_at(
            v,
            "new"@,
        ) matches Some(s) ==> new@ == lf_view(s))),
        h matches Hunk::PrependFile { new } ==> (str_at(v, "kind"@) == Some("prepend_file"@) && (
        str_at(v, "new"@) matches Some(s) ==> new@ == lf_view(s))),
        h matches Hunk::AppendFile { new } ==> (str_at(v, "kind"@) == Some("append_file"@) && (
        str_at(v, "new"@) matches Some(s) ==> new@ == lf_view(s))),
{
}

/// A candidate names its lines, counted from 1, shows the start of them, cut to 120 bytes
/// and marked where it is cut, and sets the pattern against them line by line.
pub proof fn candidate_shows_its_lines(
    lines: Seq<Seq<char>>,
    pat: Seq<Seq<char>>,
    s: int,
    win: int,
    score: nat,
    tier: int,
)
    requires
        0 <= s,
        0 <= win,
        s + win <= lines.len(),
    ensures
        ({
            let c = candidate_at(lines, pat, s, win, score, tier);
            let t = join(lines.subrange(s, s + win), nl());
            &&& c.first == s + 1
            &&& c.last == s + win
            &&& c.score == score
            &&& c.tier == tier
            &&& byte_len(t) <= 120 ==> c.snippet == t
            &&& byte_len(t) > 120 ==> c.snippet.len() > 0 && c.snippet.last() == '…'
                && c.snippet.drop_last().is_prefix_of(t) && byte_len(c.snippet.drop_last()) <= 120
        }),
{
    let t = join(lines.subrange(s, s + win), nl());
    let k = fitting(t, 120) as int;
    as_much_as_fits(t, 120);
    assert(t.take(t.len() as int) =~= t);
    if byte_len(t) > 120 {
        assert(snippet(t).drop_last() =~= t.take(k));
    }
}

/// Of several places the first three are shown.
pub proof fn first_three_places_are_shown(
    lines: Seq<Seq<char>>,
    pat: Seq<Seq<char>>,
    positions: Seq<usize>,
    win: int,
    score: nat,
    tier: int,
)
    ensures
        ({
            let shown = candidates_at(lines, pat, positions, win, score, tier);
            &&& positions.len() <= 3 ==> shown.len() == positions.len()
            &&& positions.len() > 3 ==> shown.len() == 3
            &&& forall|i: int|
                0 <= i < shown.len() ==> #[trigger] shown[i] == candidate_at(
                    lines,
                    pat,
                    positions[i] as int,
                    win,
                    score,
                    tier,
                )
        }),
{
}

/// An equal pair of lines is shown once, an unequal one as a line less and a line more; each
/// row stands behind the ones before, and marked lines likewise.
pub proof fn rows_set_lines_side_by_side(
    pat: Seq<Seq<char>>,
    cand: Seq<Seq<char>>,
    i: int,
    mark: Seq<char>,
    from: int,
)
    requires
        0 <= i < pat.len(),
        i < cand.len(),
        0 <= from <= i,
    ensures
        rows(pat, cand, 0).len() == 0,
        pat[i] == cand[i] ==> rows(pat, cand, i + 1) == rows(pat, cand, i) + ("    "@ + cand[i]
            + nl()),
        pat[i] != cand[i] ==> rows(pat, cand, i + 1) == rows(pat, cand, i) + ("  - "@ + pat[i] + nl()
            + ("  + "@ + cand[i] + nl())),
        marked(mark, cand, from, from).len() == 0,
        marked(mark, cand, from, i + 1) == marked(mark, cand, from, i) + (mark + cand[i] + nl()),
{
}

/// Text that is put in where a replaced range begins stands before what replaces the range, and
/// text that is put in where it ends stands behind.
pub proof fn insertion_at_the_edge_stays_outside(
    text: Seq<char>,
    p: int,
    e: int,
    new: Seq<char>,
    more: Seq<char>,
)
    requires
        0 <= p < e <= text.len(),
    ensures
        ({
            let r = OpView::Replace { start: p, end: e, new };
            let front = OpView::Insert { pos: p, text: more };
            let back = OpView::Insert { pos: e, text: more };
            &&& edited_text(text, seq![r, front]) == text.take(p) + more + new + text.skip(e)
            &&& edited_text(text, seq![front, r]) == text.take(p) + more + new + text.skip(e)
            &&& edited_text(text, seq![r, back]) == text.take(p) + new + more + text.skip(e)
            &&& edited_text(text, seq![back, r]) == text.take(p) + new + more + text.skip(e)
        }),
{
    let r = OpView::Replace { start: p, end: e, new };
    let front = OpView::Insert { pos: p, text: more };
    let back = OpView::Insert { pos: e, text: more };
    lemma_two(text, r, front);
    lemma_two(text, back, r);
    lemma_ordered_two(r, front);
    lemma_ordered_two(back, r);
    assert(text.subrange(0, p) =~= text.take(p));
    assert(text.subrange(p, p) =~= Seq::<char>::empty());
    assert(text.subrange(e, e) =~= Seq::<char>::empty());
    assert(edited_text(text, seq![r, front]) =~= text.take(p) + more + new + text.skip(e));
    assert(edited_text(text, seq![r, back]) =~= text.take(p) + new + more + text.skip(e));
}

proof fn lemma_ordered_two(x: OpView, y: OpView)
    requires
        goes_before(x, y),
        !goes_before(y, x),
    ensures
        ordered(seq![x, y]) == seq![x, y],
        ordered(seq![y, x]) == seq![x, y],
{
    reveal_with_fuel(ordered, 3);
    reveal_with_fuel(put, 3);
    assert(seq![x, y].drop_last() =~= seq![x]);
    assert(seq![y, x].drop_last() =~= seq![y]);
    assert(seq![x].drop_last() =~= Seq::<OpView>::empty());
    assert(seq![y].drop_last() =~= Seq::<OpView>::empty());
    assert(put(Seq::<OpView>::empty(), x) =~= seq![x]);
    assert(put(Seq::<OpView>::empty(), y) =~= seq![y]);
    assert(put(seq![x], y) =~= seq![x, y]);
    assert(put(seq![y], x) =~= seq![x, y]);
}

proof fn lemma_two(text: Seq<char>, x: OpView, y: OpView)
    ensures
        rewritten(text, seq![x, y], 0) == text.subrange(0, y.start()) + y.text() + (text.subrange(
            y.end(),
            x.start(),
        ) + x.text() + text.skip(x.end())),
{
    reveal_with_fuel(rewritten, 3);
    assert(seq![x, y].drop_last() =~= seq![x]);
    assert(seq![x].drop_last() =~= Seq::<OpView>::empty());
}

/// The pattern and a candidate are set side by side as far as both go; then come the lines that
/// one has more.
pub proof fn longer_side_goes_on_alone(pat: Seq<Seq<char>>, cand: Seq<Seq<char>>)
    ensures
        pat.len() == cand.len() ==> side_by_side(pat, cand) == trim_end(
            rows(pat, cand, pat.len() as int),
        ),
        pat.len() < cand.len() ==> side_by_side(pat, cand) == trim_end(
            rows(pat, cand, pat.len() as int) + marked(
                "  + "@,
                cand,
                pat.len() as int,
                cand.len() as int,
            ),
        ),
        pat.len() > cand.len() ==> side_by_side(pat, cand) == trim_end(
            rows(pat, cand, cand.len() as int) + marked(
                "  - "@,
                pat,
                cand.len() as int,
                pat.len() as int,
            ),
        ),
{
    let none = Seq::<char>::empty();
    let n = if pat.len() <= cand.len() {
        pat.len() as int
    } else {
        cand.len() as int
    };
    let r = rows(pat, cand, n);
    let a = marked("  + "@, cand, n, cand.len() as int);
    let b = marked("  - "@, pat, n, pat.len() as int);
    assert(pat.len() == n ==> b =~= none);
    assert(cand.len() == n ==> a =~= none);
    assert(pat.len() == n ==> r + a + b =~= r + a);
    assert(cand.len() == n ==> r + a + b =~= r + b);
    assert(pat.len() == n && cand.len() == n ==> r + a + b =~= r);
}

/// The line hint of a hunk is the one its request names, and a text that the request does not
/// have is empty.
pub proof fn hunk_carries_its_hint(v: Json, h: Hunk, n: u64)
    requires
        describes(v, h),
    ensures
        ({
            let hint = match h {
                Hunk::Replace { hint_line, .. } => hint_line,
                Hunk::InsertAfter { hint_line, .. } => hint_line,
                Hunk::InsertBefore { hint_line, .. } => hint_line,
                Hunk::ReplaceInline { hint_line, .. } => hint_line,
                _ => None,
            };
            let places = h is Replace || h is InsertAfter || h is InsertBefore || h is ReplaceInline;
            &&& places && member(v, "hint_line"@) == Some(Json::Uint(n)) && 0 < n <= usize::MAX ==> (
            hint matches Some(k) && k == n)
            &&& places && member(v, "hint_line"@) == Some(Json::Uint(0)) ==> hint == Some(1usize)
            &&& member(v, "hint_line"@) is None ==> hint is None
        }),
        h matches Hunk::Replace { context_before, context_after, .. } ==> {
            &&& member(v, "context_before"@) is None ==> context_before@.len() == 0
            &&& member(v, "context_after"@) is None ==> context_after@.len() == 0
        },
        h is Replace ==> str_at(v, "kind"@) == Some("replace"@),
{
    reveal_strlit("");
    crate::file_shared::newline_view_step(""@);
}

/// A change is noted at the line at which it is made, on the text as the changes behind it have
/// left it.
pub proof fn shift_is_noted_at_its_line(text: Seq<char>, ops: Seq<OpView>, k: int)
    requires
        0 <= k < ops.len(),
    ensures
        shift_at(text, ops, k).0 == rope_line_index(stage(text, ops, k), ops[k].start()) + 1,
        stage(text, ops, 0) == text,
{
    assert(text.take(text.len() as int) =~= text);
    assert(ops.take(0) =~= Seq::<OpView>::empty());
    assert(text.skip(text.len() as int) =~= Seq::<char>::empty());
    assert(stage(text, ops, 0) =~= text);
}

} // verus!
