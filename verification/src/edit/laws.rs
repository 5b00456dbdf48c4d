//! What holds of every edit.

use vstd::prelude::*;

use crate::edit::apply::{
    apart, clash, clash_means_overlap, edited_text, goes_before, lemma_ordered_staggered, ordered,
    overlap, put, rewritten, staggered,
};
use crate::edit::handler::{
    asks_for, cr_total, edit_decision, replays, sent_hunks, step_after, DecisionView, EditCall,
    EditStep,
};
use crate::edit::hunk::{cr_count, describes, Hunk};
use crate::edit::read::{read_answer, FileRead};
use crate::edit::resolve::{resolved, OpView};
use crate::edit::transaction::{
    all_ops, all_reports, bare, edit_outcome, failures, final_places, first_failure, ops_of,
    overwrites, Mode,
};
use crate::file_shared::{
    has_cr, hash_of, lf_view, newline_view_of_plain_text, newline_view_undoes_crlf,
};
use crate::json::{member, opt_text, texts, Json};

verus! {

/// Whether a hunk cannot be placed.
#[verifier::opaque]
spec fn unplaced(text: Seq<char>, h: Hunk) -> bool {
    final_places(text, h) is Err
}

proof fn lemma_first_failure_step(text: Seq<char>, hunks: Seq<Hunk>, n: int)
    requires
        0 < n <= hunks.len(),
    ensures
        first_failure(text, hunks, n) is Some <==> first_failure(text, hunks, n - 1) is Some
            || unplaced(text, hunks[n - 1]),
{
    reveal(unplaced);
}

proof fn lemma_first_failure_exists(text: Seq<char>, hunks: Seq<Hunk>, n: int)
    requires
        0 <= n <= hunks.len(),
    ensures
        first_failure(text, hunks, n) is Some <==> exists|i: int|
            0 <= i < n && unplaced(text, #[trigger] hunks[i]),
    decreases n,
{
    if n > 0 {
        lemma_first_failure_exists(text, hunks, n - 1);
        lemma_first_failure_step(text, hunks, n);
    }
}

proof fn lemma_first_failure(text: Seq<char>, hunks: Seq<Hunk>, n: int)
    requires
        0 <= n <= hunks.len(),
    ensures
        first_failure(text, hunks, n) is None ==> forall|i: int|
            0 <= i < n ==> final_places(text, #[trigger] hunks[i]) is Ok,
        first_failure(text, hunks, n) is Some ==> exists|i: int|
            0 <= i < n && final_places(text, #[trigger] hunks[i]) is Err,
{
    lemma_first_failure_exists(text, hunks, n);
    reveal(unplaced);
    if first_failure(text, hunks, n) is Some {
        let i = choose|i: int| 0 <= i < n && unplaced(text, #[trigger] hunks[i]);
        assert(final_places(text, hunks[i]) is Err);
    }
}

/// A strict edit is all or nothing: one hunk that cannot be placed, and nothing is
/// written.
pub proof fn strict_edit_is_all_or_nothing(
    text: Seq<char>,
    hunks: Seq<Hunk>,
    notes: Seq<Seq<char>>,
    i: int,
)
    requires
        0 <= i < hunks.len(),
        final_places(text, hunks[i]) is Err,
    ensures
        edit_outcome(text, hunks, notes, Mode::Strict).edited is None,
{
    lemma_first_failure(text, hunks, hunks.len() as int);
}

/// What a strict edit writes is the one text with the operations of every hunk
/// applied at the places that were found on that text.
pub proof fn strict_edit_applies_every_hunk(
    text: Seq<char>,
    hunks: Seq<Hunk>,
    notes: Seq<Seq<char>>,
)
    ensures
        edit_outcome(text, hunks, notes, Mode::Strict).edited matches Some(e) ==> {
            &&& forall|i: int|
                0 <= i < hunks.len() ==> final_places(text, #[trigger] hunks[i]) is Ok
            &&& e == edited_text(text, bare(all_ops(text, hunks, hunks.len() as int)))
        },
{
    lemma_first_failure(text, hunks, hunks.len() as int);
    let o = edit_outcome(text, hunks, notes, Mode::Strict);
    if o.edited is Some {
        assert forall|i: int| 0 <= i < hunks.len() implies final_places(
            text,
            #[trigger] hunks[i],
        ) is Ok by {
            assert(first_failure(text, hunks, hunks.len() as int) is None);
        }
    }
}

/// An edit that writes nothing names no new fingerprint, shows no diff and moves no
/// line, and says why.
pub proof fn rejected_edit_changes_nothing(
    text: Seq<char>,
    hunks: Seq<Hunk>,
    notes: Seq<Seq<char>>,
    mode: Mode,
)
    ensures
        ({
            let o = edit_outcome(text, hunks, notes, mode);
            o.edited is None ==> {
                &&& o.new_hash is None
                &&& o.diff.len() == 0
                &&& o.shifts.len() == 0
                &&& o.code is Some
                &&& o.message is Some
            }
        }),
{
}

/// The fingerprint that an edit returns is that of the text it leaves behind.
pub proof fn new_hash_is_that_of_the_edited_text(
    text: Seq<char>,
    hunks: Seq<Hunk>,
    notes: Seq<Seq<char>>,
    mode: Mode,
)
    ensures
        ({
            let o = edit_outcome(text, hunks, notes, mode);
            o.edited matches Some(e) ==> o.new_hash == Some(hash_of(e))
        }),
{
}

/// Where every hunk can be placed, the mode makes no difference.
pub proof fn modes_agree_without_failures(
    text: Seq<char>,
    hunks: Seq<Hunk>,
    notes: Seq<Seq<char>>,
)
    requires
        forall|i: int| 0 <= i < hunks.len() ==> final_places(text, #[trigger] hunks[i]) is Ok,
    ensures
        edit_outcome(text, hunks, notes, Mode::Partial) == edit_outcome(
            text,
            hunks,
            notes,
            Mode::Strict,
        ),
{
    lemma_first_failure(text, hunks, hunks.len() as int);
}

/// Hunks whose ranges overlap are never written, in either mode.
pub proof fn overlapping_hunks_are_refused(
    text: Seq<char>,
    hunks: Seq<Hunk>,
    notes: Seq<Seq<char>>,
    mode: Mode,
    i: int,
    j: int,
)
    requires
        ({
            let ops = bare(all_ops(text, hunks, hunks.len() as int));
            0 <= i < j < ops.len() && overlap(ops[i], ops[j])
        }),
    ensures
        edit_outcome(text, hunks, notes, mode).edited is None,
{
    clash_means_overlap(bare(all_ops(text, hunks, hunks.len() as int)));
}

proof fn lemma_one_op(text: Seq<char>, o: OpView)
    requires
        o.fits(text.len() as int),
    ensures
        edited_text(text, seq![o]) == text.take(o.start()) + o.text() + text.skip(o.end()),
{
    let ops = seq![o];
    reveal_with_fuel(ordered, 2);
    reveal_with_fuel(put, 2);
    reveal_with_fuel(rewritten, 2);
    assert(ops.drop_last() =~= Seq::<OpView>::empty());
    assert(ordered(ops) =~= ops);
    assert(ordered(ops).drop_last() =~= Seq::<OpView>::empty());
    assert(text.subrange(0, o.start()) =~= text.take(o.start()));
}

/// An edit of one hunk that goes to one place: that place is spliced and the rest
/// of the text stays as it is.
pub proof fn one_hunk_splices_its_place(
    text: Seq<char>,
    hunk: Hunk,
    notes: Seq<Seq<char>>,
    mode: Mode,
    o: OpView,
)
    requires
        final_places(text, hunk) is Ok,
        final_places(text, hunk)->Ok_0.len() == 1,
        o == resolved(text, hunk, final_places(text, hunk)->Ok_0[0]),
        o.fits(text.len() as int),
    ensures
        edit_outcome(text, seq![hunk], notes, mode).edited == Some(
            text.take(o.start()) + o.text() + text.skip(o.end()),
        ),
{
    let hunks = seq![hunk];
    let locs = final_places(text, hunk)->Ok_0;
    reveal_with_fuel(all_ops, 2);
    reveal_with_fuel(first_failure, 2);
    reveal_with_fuel(overwrites, 2);
    reveal_with_fuel(clash, 2);
    let ops = bare(all_ops(text, hunks, 1));
    assert(ops_of(text, 0, hunk, locs) =~= seq![(0int, o)]);
    assert(all_ops(text, hunks, 1) =~= seq![(0int, o)]);
    assert(ops =~= seq![o]);
    clash_means_overlap(ops);
    lemma_one_op(text, o);
}

/// An overwrite leaves exactly its own text.
pub proof fn overwrite_replaces_the_whole_file(
    text: Seq<char>,
    hunk: Hunk,
    notes: Seq<Seq<char>>,
    mode: Mode,
)
    requires
        hunk is Overwrite,
    ensures
        edit_outcome(text, seq![hunk], notes, mode).edited == Some(hunk->Overwrite_new@),
{
    let o = resolved(text, hunk, final_places(text, hunk)->Ok_0[0]);
    one_hunk_splices_its_place(text, hunk, notes, mode, o);
    assert(text.take(0) + o.text() + text.skip(text.len() as int) =~= o.text());
}

/// A prepend puts its text before the whole file.
pub proof fn prepend_puts_text_in_front(
    text: Seq<char>,
    hunk: Hunk,
    notes: Seq<Seq<char>>,
    mode: Mode,
)
    requires
        hunk is PrependFile,
    ensures
        edit_outcome(text, seq![hunk], notes, mode).edited == Some(hunk->PrependFile_new@ + text),
{
    let o = resolved(text, hunk, final_places(text, hunk)->Ok_0[0]);
    one_hunk_splices_its_place(text, hunk, notes, mode, o);
    assert(text.take(0) + o.text() + text.skip(0) =~= o.text() + text);
}

/// An append puts its text behind the whole file.
pub proof fn append_keeps_the_file_in_front(
    text: Seq<char>,
    hunk: Hunk,
    notes: Seq<Seq<char>>,
    mode: Mode,
)
    requires
        hunk is AppendFile,
    ensures
        edit_outcome(text, seq![hunk], notes, mode).edited matches Some(e) && e.len() >= text.len()
            && e.take(text.len() as int) == text,
{
    let o = resolved(text, hunk, final_places(text, hunk)->Ok_0[0]);
    one_hunk_splices_its_place(text, hunk, notes, mode, o);
    let e = text.take(text.len() as int) + o.text() + text.skip(text.len() as int);
    assert(e.take(text.len() as int) =~= text);
}

/// An overwrite beside another hunk is refused.
pub proof fn overwrite_must_be_alone(
    text: Seq<char>,
    hunks: Seq<Hunk>,
    notes: Seq<Seq<char>>,
    mode: Mode,
    i: int,
)
    requires
        hunks.len() > 1,
        0 <= i < hunks.len(),
        hunks[i] is Overwrite,
    ensures
        edit_outcome(text, hunks, notes, mode).edited is None,
{
    lemma_overwrites(hunks, i, hunks.len() as int);
}

proof fn lemma_overwrites(hunks: Seq<Hunk>, i: int, n: int)
    requires
        0 <= i < n <= hunks.len(),
        hunks[i] is Overwrite,
    ensures
        overwrites(hunks, n) > 0,
    decreases n,
{
    if i < n - 1 {
        lemma_overwrites(hunks, i, n - 1);
    }
}

/// How much longer the operations make a text.
pub open spec fn growth(ops: Seq<OpView>) -> int
    decreases ops.len(),
{
    if ops.len() == 0 {
        0
    } else {
        growth(ops.drop_last()) + ops.last().text().len() - (ops.last().end() - ops.last().start())
    }
}

proof fn lemma_rewritten_len(text: Seq<char>, ops: Seq<OpView>, from: int)
    requires
        staggered(ops, text.len() as int),
        0 <= from <= text.len(),
        ops.len() > 0 ==> from <= ops.last().start(),
    ensures
        rewritten(text, ops, from).len() == text.len() - from + growth(ops),
    decreases ops.len(),
{
    if ops.len() > 0 {
        let front = ops.drop_last();
        let o = ops.last();
        assert(o == ops[ops.len() - 1]);
        assert(o.fits(text.len() as int));
        assert forall|i: int| 0 <= i < front.len() implies (#[trigger] front[i]).fits(
            text.len() as int,
        ) by {
            assert(front[i] == ops[i]);
        }
        assert forall|i: int, j: int| 0 <= i < j < front.len() implies (#[trigger] front[j]).end()
            <= (#[trigger] front[i]).start() by {
            assert(front[i] == ops[i]);
            assert(front[j] == ops[j]);
        }
        if front.len() > 0 {
            assert(ops[ops.len() - 1].end() <= ops[ops.len() - 2].start());
        }
        lemma_rewritten_len(text, front, o.end());
    }
}

proof fn lemma_put_growth(sorted: Seq<OpView>, x: OpView)
    ensures
        growth(put(sorted, x)) == growth(sorted) + x.text().len() - (x.end() - x.start()),
    decreases sorted.len(),
{
    if sorted.len() > 0 && goes_before(x, sorted.last()) {
        lemma_put_growth(sorted.drop_last(), x);
        assert(put(sorted, x).drop_last() =~= put(sorted.drop_last(), x));
    } else {
        assert(put(sorted, x).drop_last() =~= sorted);
    }
}

proof fn lemma_ordered_growth(ops: Seq<OpView>)
    ensures
        growth(ordered(ops)) == growth(ops),
    decreases ops.len(),
{
    if ops.len() > 0 {
        lemma_ordered_growth(ops.drop_last());
        lemma_put_growth(ordered(ops.drop_last()), ops.last());
    }
}

/// Nothing is lost or doubled: the edited text is as long as the text before, less
/// what the operations take out, plus what they put in.
pub proof fn edited_text_has_the_right_length(text: Seq<char>, ops: Seq<OpView>)
    requires
        apart(ops),
        forall|i: int| 0 <= i < ops.len() ==> (#[trigger] ops[i]).fits(text.len() as int),
    ensures
        edited_text(text, ops).len() == text.len() + growth(ops),
{
    lemma_ordered_staggered(ops, text.len() as int);
    lemma_ordered_growth(ops);
    if ordered(ops).len() > 0 {
        assert(ordered(ops)[ordered(ops).len() - 1].fits(text.len() as int));
    }
    lemma_rewritten_len(text, ordered(ops), 0);
}

/// Of any two operations one goes before the other: no two of them put text in at
/// the same point without taking any out.
pub open spec fn settled(ops: Seq<OpView>) -> bool {
    forall|i: int, j: int|
        0 <= i < j < ops.len() ==> goes_before(#[trigger] ops[i], #[trigger] ops[j]) || goes_before(
            ops[j],
            ops[i],
        )
}

spec fn strict(ops: Seq<OpView>) -> bool {
    forall|i: int, j: int|
        0 <= i < j < ops.len() ==> goes_before(#[trigger] ops[i], #[trigger] ops[j])
}

proof fn lemma_put_strict(sorted: Seq<OpView>, x: OpView)
    requires
        strict(sorted),
        forall|i: int|
            0 <= i < sorted.len() ==> goes_before(#[trigger] sorted[i], x) || goes_before(
                x,
                sorted[i],
            ),
    ensures
        strict(put(sorted, x)),
        put(sorted, x).to_multiset() == sorted.to_multiset().insert(x),
        forall|i: int|
            0 <= i < put(sorted, x).len() ==> sorted.push(x).contains(#[trigger] put(sorted, x)[i]),
    decreases sorted.len(),
{
    broadcast use vstd::seq_lib::group_to_multiset_ensures;

    let all = put(sorted, x);
    if sorted.len() > 0 && goes_before(x, sorted.last()) {
        let front = sorted.drop_last();
        let y = sorted.last();
        assert forall|i: int, j: int| 0 <= i < j < front.len() implies goes_before(
            #[trigger] front[i],
            #[trigger] front[j],
        ) by {
            assert(front[i] == sorted[i]);
            assert(front[j] == sorted[j]);
        }
        assert forall|i: int| 0 <= i < front.len() implies goes_before(#[trigger] front[i], x)
            || goes_before(x, front[i]) by {
            assert(front[i] == sorted[i]);
        }
        lemma_put_strict(front, x);
        let inner = put(front, x);
        assert forall|i: int| 0 <= i < all.len() implies sorted.push(x).contains(
            #[trigger] all[i],
        ) by {
            if i < inner.len() {
                assert(front.push(x).contains(inner[i]));
                let k = choose|k: int| 0 <= k < front.push(x).len() && front.push(x)[k] == inner[i];
                if k < front.len() {
                    assert(sorted.push(x)[k] == all[i]);
                } else {
                    assert(sorted.push(x)[sorted.len() as int] == all[i]);
                }
            } else {
                assert(sorted.push(x)[sorted.len() - 1] == all[i]);
            }
        }
        assert forall|i: int, j: int| 0 <= i < j < all.len() implies goes_before(
            #[trigger] all[i],
            #[trigger] all[j],
        ) by {
            if j < inner.len() {
                assert(all[i] == inner[i]);
                assert(all[j] == inner[j]);
            } else {
                assert(all[i] == inner[i]);
                assert(front.push(x).contains(inner[i]));
                let k = choose|k: int| 0 <= k < front.push(x).len() && front.push(x)[k] == inner[i];
                if k < front.len() {
                    assert(goes_before(sorted[k], sorted[sorted.len() - 1]));
                }
            }
        }
        assert(sorted =~= front.push(y));
        assert(all.to_multiset() =~= front.to_multiset().insert(x).insert(y));
        assert(sorted.to_multiset().insert(x) =~= front.to_multiset().insert(y).insert(x));
        assert(all.to_multiset() =~= sorted.to_multiset().insert(x));
    } else {
        assert forall|i: int, j: int| 0 <= i < j < all.len() implies goes_before(
            #[trigger] all[i],
            #[trigger] all[j],
        ) by {
            assert(all[i] == sorted[i]);
            if j < sorted.len() {
                assert(all[j] == sorted[j]);
            } else {
                let last = sorted.len() - 1;
                assert(goes_before(sorted[last], x) || goes_before(x, sorted[last]));
                if i < last {
                    assert(goes_before(sorted[i], sorted[last]));
                }
            }
        }
        assert forall|i: int| 0 <= i < all.len() implies sorted.push(x).contains(
            #[trigger] all[i],
        ) by {
            assert(sorted.push(x)[i] == all[i]);
        }
    }
}

proof fn lemma_ordered_strict(ops: Seq<OpView>)
    requires
        settled(ops),
    ensures
        strict(ordered(ops)),
        ordered(ops).to_multiset() == ops.to_multiset(),
        forall|i: int| 0 <= i < ordered(ops).len() ==> ops.contains(#[trigger] ordered(ops)[i]),
    decreases ops.len(),
{
    broadcast use vstd::seq_lib::group_to_multiset_ensures;

    if ops.len() == 0 {
        assert(ordered(ops) =~= ops);
    } else {
        let front = ops.drop_last();
        let x = ops.last();
        assert forall|i: int, j: int| 0 <= i < j < front.len() implies goes_before(
            #[trigger] front[i],
            #[trigger] front[j],
        ) || goes_before(front[j], front[i]) by {
            assert(front[i] == ops[i]);
            assert(front[j] == ops[j]);
        }
        lemma_ordered_strict(front);
        let sorted = ordered(front);
        assert forall|i: int| 0 <= i < sorted.len() implies goes_before(#[trigger] sorted[i], x)
            || goes_before(x, sorted[i]) by {
            assert(front.contains(sorted[i]));
            let k = choose|k: int| 0 <= k < front.len() && front[k] == sorted[i];
            assert(ops[k] == sorted[i]);
            assert(goes_before(ops[k], ops[ops.len() - 1]) || goes_before(
                ops[ops.len() - 1],
                ops[k],
            ));
        }
        lemma_put_strict(sorted, x);
        assert(ops =~= front.push(x));
        assert forall|i: int| 0 <= i < ordered(ops).len() implies ops.contains(
            #[trigger] ordered(ops)[i],
        ) by {
            assert(sorted.push(x).contains(ordered(ops)[i]));
            let k = choose|k: int|
                0 <= k < sorted.push(x).len() && sorted.push(x)[k] == ordered(ops)[i];
            if k < sorted.len() {
                assert(front.contains(sorted[k]));
                let m = choose|m: int| 0 <= m < front.len() && front[m] == sorted[k];
                assert(ops[m] == ordered(ops)[i]);
            } else {
                assert(ops[ops.len() - 1] == ordered(ops)[i]);
            }
        }
    }
}

proof fn lemma_strict_unique(s: Seq<OpView>, t: Seq<OpView>)
    requires
        strict(s),
        strict(t),
        s.to_multiset() == t.to_multiset(),
    ensures
        s == t,
    decreases s.len(),
{
    broadcast use vstd::seq_lib::group_to_multiset_ensures;

    assert(s.to_multiset().len() == s.len());
    assert(t.to_multiset().len() == t.len());
    if s.len() == 0 {
        assert(s =~= t);
    } else {
        let a = s.last();
        let b = t.last();
        assert(s[s.len() - 1] == a);
        assert(t[t.len() - 1] == b);
        assert(s.contains(a));
        assert(t.contains(b));
        assert(s.to_multiset().count(a) > 0);
        assert(t.to_multiset().count(b) > 0);
        assert(t.contains(a));
        assert(s.contains(b));
        if a != b {
            let k = choose|k: int| 0 <= k < t.len() && t[k] == a;
            let m = choose|m: int| 0 <= m < s.len() && s[m] == b;
            assert(goes_before(t[k], t[t.len() - 1]));
            assert(goes_before(s[m], s[s.len() - 1]));
        }
        let sf = s.drop_last();
        let tf = t.drop_last();
        assert(s =~= sf.push(a));
        assert(t =~= tf.push(b));
        assert(sf.to_multiset() =~= s.to_multiset().remove(a));
        assert(tf.to_multiset() =~= t.to_multiset().remove(a));
        assert forall|i: int, j: int| 0 <= i < j < sf.len() implies goes_before(
            #[trigger] sf[i],
            #[trigger] sf[j],
        ) by {
            assert(sf[i] == s[i]);
            assert(sf[j] == s[j]);
        }
        assert forall|i: int, j: int| 0 <= i < j < tf.len() implies goes_before(
            #[trigger] tf[i],
            #[trigger] tf[j],
        ) by {
            assert(tf[i] == t[i]);
            assert(tf[j] == t[j]);
        }
        lemma_strict_unique(sf, tf);
    }
}

/// The order in which operations are given does not matter: any arrangement of
/// them leaves the same text.
pub proof fn order_of_operations_does_not_matter(
    text: Seq<char>,
    ops: Seq<OpView>,
    rearranged: Seq<OpView>,
)
    requires
        settled(ops),
        settled(rearranged),
        ops.to_multiset() == rearranged.to_multiset(),
    ensures
        edited_text(text, ops) == edited_text(text, rearranged),
{
    lemma_ordered_strict(ops);
    lemma_ordered_strict(rearranged);
    lemma_strict_unique(ordered(ops), ordered(rearranged));
}

/// A call that refers to an earlier read is refused when the content has changed
/// since: nothing is written.
pub proof fn stale_edit_never_writes(call: EditCall, raw: String)
    requires
        call.expected_hash is Some,
        call.expected_hash->0@.len() > 0,
        call.expected_hash->0@ != hash_of(lf_view(raw@)),
    ensures
        edit_decision(call, FileRead::Text(raw)) is Stale,
{
}

/// What is written keeps the file's line endings, and read again it is the edited
/// text.
pub proof fn written_file_reads_back(call: EditCall, file: FileRead)
    ensures
        match edit_decision(call, file) {
            DecisionView::Commit { content, outcome, .. } => outcome.edited is Some && (!has_cr(
                outcome.edited->0,
            ) ==> lf_view(content) == outcome.edited->0),
            _ => true,
        },
{
    match edit_decision(call, file) {
        DecisionView::Commit { content, outcome, .. } => {
            let e = outcome.edited->0;
            if !has_cr(e) {
                newline_view_undoes_crlf(e);
                newline_view_of_plain_text(e);
            }
        },
        _ => {},
    }
}

/// Edits chain: the fingerprint that one edit returns passes the check of the next.
pub proof fn new_hash_chains_into_the_next_edit(
    call: EditCall,
    file: FileRead,
    next: EditCall,
    written: String,
)
    requires
        edit_decision(call, file) matches DecisionView::Commit { content, outcome, .. } && content
            == written@ && !has_cr(outcome.edited->0) && opt_text(next.expected_hash)
            == outcome.new_hash,
    ensures
        !(edit_decision(next, FileRead::Text(written)) is Stale),
{
    written_file_reads_back(call, file);
}

/// Every read answers with the fingerprint of the whole file.
pub proof fn every_read_carries_the_file_hash(path: Seq<char>, args: Json, raw: String)
    ensures
        read_answer(path, args, FileRead::Text(raw)) matches Ok(reply) ==> reply.hash == hash_of(
            lf_view(raw@),
        ),
{
}

/// The fingerprint that a read returns passes the check of an edit of that file.
pub proof fn read_hash_chains_into_an_edit(
    path: Seq<char>,
    args: Json,
    raw: String,
    call: EditCall,
)
    requires
        read_answer(path, args, FileRead::Text(raw)) matches Ok(reply) && opt_text(
            call.expected_hash,
        ) == Some(reply.hash),
    ensures
        !(edit_decision(call, FileRead::Text(raw)) is Stale),
{
}

/// Two hunks of the same kind with the same texts and settings.
pub open spec fn alike(a: Hunk, b: Hunk) -> bool {
    match a {
        Hunk::Replace { old, new, context_before, context_after, replace_all, hint_line } => {
            &&& b is Replace
            &&& b->Replace_old@ == old@
            &&& b->Replace_new@ == new@
            &&& b->Replace_context_before@ == context_before@
            &&& b->Replace_context_after@ == context_after@
            &&& b->Replace_replace_all == replace_all
            &&& b->Replace_hint_line == hint_line
        },
        Hunk::Overwrite { new } => b is Overwrite && b->Overwrite_new@ == new@,
        Hunk::InsertAfter { anchor, new, hint_line } => {
            &&& b is InsertAfter
            &&& b->InsertAfter_anchor@ == anchor@
            &&& b->InsertAfter_new@ == new@
            &&& b->InsertAfter_hint_line == hint_line
        },
        Hunk::InsertBefore { anchor, new, hint_line } => {
            &&& b is InsertBefore
            &&& b->InsertBefore_anchor@ == anchor@
            &&& b->InsertBefore_new@ == new@
            &&& b->InsertBefore_hint_line == hint_line
        },
        Hunk::ReplaceInline { anchor, old, new, replace_all, regex, hint_line } => {
            &&& b is ReplaceInline
            &&& b->ReplaceInline_anchor@ == anchor@
            &&& b->ReplaceInline_old@ == old@
            &&& b->ReplaceInline_new@ == new@
            &&& b->ReplaceInline_replace_all == replace_all
            &&& b->ReplaceInline_regex == regex
            &&& b->ReplaceInline_hint_line == hint_line
        },
        Hunk::PrependFile { new } => b is PrependFile && b->PrependFile_new@ == new@,
        Hunk::AppendFile { new } => b is AppendFile && b->AppendFile_new@ == new@,
    }
}

proof fn lemma_alike_upto(text: Seq<char>, a: Seq<Hunk>, b: Seq<Hunk>, n: int)
    requires
        0 <= n <= a.len() == b.len(),
        forall|i: int| 0 <= i < a.len() ==> alike(#[trigger] a[i], b[i]),
    ensures
        first_failure(text, a, n) == first_failure(text, b, n),
        failures(text, a, n) == failures(text, b, n),
        all_ops(text, a, n) == all_ops(text, b, n),
        overwrites(a, n) == overwrites(b, n),
    decreases n,
{
    if n > 0 {
        lemma_alike_upto(text, a, b, n - 1);
        assert(alike(a[n - 1], b[n - 1]));
        assert(final_places(text, a[n - 1]) == final_places(text, b[n - 1]));
        if let Ok(locs) = final_places(text, a[n - 1]) {
            assert(ops_of(text, n - 1, a[n - 1], locs) =~= ops_of(text, n - 1, b[n - 1], locs));
        }
    }
}

/// An edit depends on what its hunks say and on nothing else.
pub proof fn like_hunks_have_like_outcomes(
    text: Seq<char>,
    a: Seq<Hunk>,
    b: Seq<Hunk>,
    notes: Seq<Seq<char>>,
    mode: Mode,
)
    requires
        a.len() == b.len(),
        forall|i: int| 0 <= i < a.len() ==> alike(#[trigger] a[i], b[i]),
    ensures
        edit_outcome(text, a, notes, mode) == edit_outcome(text, b, notes, mode),
{
    lemma_alike_upto(text, a, b, a.len() as int);
    assert forall|i: int| 0 <= i < a.len() implies #[trigger] all_reports(text, a)[i]
        == all_reports(text, b)[i] by {
        assert(alike(a[i], b[i]));
        assert(final_places(text, a[i]) == final_places(text, b[i]));
    }
    assert(all_reports(text, a) =~= all_reports(text, b));
}

proof fn lemma_cr_total_alike(items: Seq<Json>, a: Seq<Hunk>, b: Seq<Hunk>, n: int)
    requires
        0 <= n <= a.len() == b.len(),
        forall|i: int| 0 <= i < a.len() ==> alike(#[trigger] a[i], b[i]),
    ensures
        cr_total(items, a, n) == cr_total(items, b, n),
    decreases n,
{
    if n > 0 {
        lemma_cr_total_alike(items, a, b, n - 1);
        assert(alike(a[n - 1], b[n - 1]));
        assert(cr_count(items[n - 1], a[n - 1]) == cr_count(items[n - 1], b[n - 1]));
    }
}

proof fn lemma_described_alike(v: Json, a: Hunk, b: Hunk)
    requires
        describes(v, a),
        describes(v, b),
    ensures
        alike(a, b),
{
    reveal_strlit("replace");
    reveal_strlit("overwrite");
    reveal_strlit("insert_after");
    reveal_strlit("insert_before");
    reveal_strlit("replace_inline");
    reveal_strlit("prepend_file");
    reveal_strlit("append_file");
    assert("insert_after"@[0] != "prepend_file"@[0]);
    assert("replace"@.len() == 7 && "overwrite"@.len() == 9 && "insert_after"@.len() == 12
        && "insert_before"@.len() == 13 && "replace_inline"@.len() == 14 && "prepend_file"@.len()
        == 12 && "append_file"@.len() == 11);
}

proof fn lemma_same_request(args: Json, other: Json, first: EditCall, again: EditCall)
    requires
        asks_for(args, first),
        asks_for(other, again),
        member(other, "path"@) == member(args, "path"@),
        member(other, "mode"@) == member(args, "mode"@),
        member(other, "hunks"@) == member(args, "hunks"@),
    ensures
        first.path@ == again.path@,
        first.mode == again.mode,
        texts(first.notes@) == texts(again.notes@),
        forall|text: Seq<char>| #[trigger]
            edit_outcome(text, first.hunks@, texts(first.notes@), first.mode) == edit_outcome(
                text,
                again.hunks@,
                texts(again.notes@),
                again.mode,
            ),
{
    let items = sent_hunks(args);
    assert forall|i: int| 0 <= i < items.len() implies alike(
        #[trigger] first.hunks@[i],
        again.hunks@[i],
    ) by {
        assert(describes(items[i], first.hunks@[i]));
        assert(describes(items[i], again.hunks@[i]));
        lemma_described_alike(items[i], first.hunks@[i], again.hunks@[i]);
    }
    lemma_cr_total_alike(items, first.hunks@, again.hunks@, items.len() as int);
    assert(texts(first.notes@) == texts(again.notes@));
    assert forall|text: Seq<char>| #[trigger]
        edit_outcome(text, first.hunks@, texts(first.notes@), first.mode) == edit_outcome(
            text,
            again.hunks@,
            texts(again.notes@),
            again.mode,
        ) by {
        like_hunks_have_like_outcomes(
            text,
            first.hunks@,
            again.hunks@,
            texts(first.notes@),
            first.mode,
        );
    }
}

/// A dry run decides as the real call does: arguments that differ in the dry run alone
/// come to the same decision on the same file, so with the same new fingerprint. Only
/// what is done about it differs: the dry run writes nothing.
pub proof fn dry_run_decides_as_the_real_call(
    args: Json,
    sent: Json,
    dry: EditCall,
    plain: EditCall,
    file: FileRead,
)
    requires
        asks_for(args, dry),
        asks_for(sent, plain),
        forall|key: Seq<char>|
            key != "dry_run"@ ==> #[trigger] member(sent, key) == member(args, key),
    ensures
        edit_decision(dry, file) == edit_decision(plain, file),
        dry.dry_run ==> step_after(edit_decision(dry, file), dry.dry_run) != EditStep::Write,
        !plain.dry_run ==> (step_after(edit_decision(plain, file), plain.dry_run) == EditStep::Write
            <==> edit_decision(dry, file) is Commit),
{
    reveal_strlit("path");
    reveal_strlit("mode");
    reveal_strlit("hunks");
    reveal_strlit("dry_run");
    reveal_strlit("expected_hash");
    assert("path"@.len() == 4 && "mode"@.len() == 4 && "hunks"@.len() == 5 && "dry_run"@.len() == 7
        && "expected_hash"@.len() == 13);
    assert(member(sent, "path"@) == member(args, "path"@));
    assert(member(sent, "mode"@) == member(args, "mode"@));
    assert(member(sent, "hunks"@) == member(args, "hunks"@));
    assert(member(sent, "expected_hash"@) == member(args, "expected_hash"@));
    lemma_same_request(args, sent, dry, plain);
    assert(opt_text(dry.expected_hash) == opt_text(plain.expected_hash));
    let none = Seq::<char>::empty();
    assert(edit_outcome(lf_view(none), dry.hunks@, texts(dry.notes@), dry.mode) == edit_outcome(
        lf_view(none),
        plain.hunks@,
        texts(plain.notes@),
        plain.mode,
    ));
    if let FileRead::Text(raw) = file {
        assert(edit_outcome(lf_view(raw@), dry.hunks@, texts(dry.notes@), dry.mode)
            == edit_outcome(lf_view(raw@), plain.hunks@, texts(plain.notes@), plain.mode));
    }
}

/// The fingerprint that a replay is bound to: that of the file, if there was one.
pub open spec fn bound_to(file: FileRead) -> Option<Seq<char>> {
    match file {
        FileRead::Text(raw) => Some(hash_of(lf_view(raw@))),
        _ => None,
    }
}

/// A dry run that is confirmed does what it showed, whether it edits a file or creates
/// one: replayed on the same file it comes to the same decision, and on a file whose
/// content has changed it is refused.
pub proof fn replay_does_what_the_dry_run_showed(
    args: Json,
    base: FileRead,
    out: Json,
    first: EditCall,
    again: EditCall,
)
    requires
        args is Obj,
        replays(args->Obj_0@, bound_to(base), out),
        asks_for(args, first),
        asks_for(out, again),
        edit_decision(first, base) is Commit,
    ensures
        !again.dry_run,
        edit_decision(again, base) == edit_decision(first, base),
        edit_decision(first, base)->base_hash == bound_to(base),
        forall|now: String|
            base is Text && bound_to(base)->0.len() > 0 && hash_of(lf_view(now@)) != bound_to(
                base,
            )->0 ==> #[trigger] edit_decision(again, FileRead::Text(now)) is Stale,
{
    reveal_strlit("path");
    reveal_strlit("mode");
    reveal_strlit("hunks");
    reveal_strlit("dry_run");
    reveal_strlit("expected_hash");
    assert("path"@.len() == 4 && "mode"@.len() == 4 && "hunks"@.len() == 5 && "dry_run"@.len() == 7
        && "expected_hash"@.len() == 13);
    assert(member(out, "path"@) == member(args, "path"@));
    assert(member(out, "mode"@) == member(args, "mode"@));
    assert(member(out, "hunks"@) == member(args, "hunks"@));
    lemma_same_request(args, out, first, again);
    assert(opt_text(again.expected_hash) == match bound_to(base) {
        Some(h) if h.len() > 0 => Some(h),
        _ => None,
    });
    let none = Seq::<char>::empty();
    assert(edit_outcome(lf_view(none), first.hunks@, texts(first.notes@), first.mode)
        == edit_outcome(lf_view(none), again.hunks@, texts(again.notes@), again.mode));
    if let FileRead::Text(raw) = base {
        assert(edit_outcome(lf_view(raw@), first.hunks@, texts(first.notes@), first.mode)
            == edit_outcome(lf_view(raw@), again.hunks@, texts(again.notes@), again.mode));
    }
}

} // verus!
