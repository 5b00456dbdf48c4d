//! What the log promises.

use vstd::prelude::*;

use crate::file_shared::hash_of;
use crate::format::byte_len;
use crate::journal::log::{
    asked, blob_at, in_sequence, keeping_opt, last_seq, opt_str, put, recorded, replayed, restored,
    selected, Change, JournalView, StepView, MAX_BLOB_BYTES,
};

verus! {

/// Changes stand in the order of their places.
pub open spec fn increasing(steps: Seq<StepView>) -> bool {
    forall|i: int, k: int|
        0 <= i < k < steps.len() ==> (#[trigger] steps[i]).seq < (#[trigger] steps[k]).seq
}

proof fn lemma_last_seq(steps: Seq<StepView>, i: int)
    requires
        0 <= i < steps.len(),
    ensures
        steps[i].seq <= last_seq(steps),
    decreases steps.len(),
{
    if i < steps.len() - 1 {
        lemma_last_seq(steps.drop_last(), i);
    }
}

/// Recording keeps the log in order: a new change gets a place behind all others.
pub proof fn log_stays_in_order(j: JournalView, c: Change)
    requires
        increasing(j.steps),
        last_seq(j.steps) < u64::MAX,
    ensures
        increasing(recorded(j, c).steps),
        forall|i: int|
            0 <= i < j.steps.len() ==> recorded(j, c).steps[i] == #[trigger] j.steps[i]
                && j.steps[i].seq < recorded(j, c).steps.last().seq,
{
    let after = recorded(j, c).steps;
    assert forall|i: int| 0 <= i < j.steps.len() implies after[i] == #[trigger] j.steps[i]
        && j.steps[i].seq < after.last().seq by {
        lemma_last_seq(j.steps, i);
    }
    assert forall|i: int, k: int| 0 <= i < k < after.len() implies (#[trigger] after[i]).seq < (
    #[trigger] after[k]).seq by {
        assert(after[i] == j.steps[i]);
        if k < j.steps.len() {
            assert(after[k] == j.steps[k]);
        }
    }
}

proof fn lemma_drop_increasing(steps: Seq<StepView>)
    requires
        increasing(steps),
        steps.len() > 0,
    ensures
        increasing(steps.drop_last()),
{
    let f = steps.drop_last();
    assert forall|i: int, k: int| 0 <= i < k < f.len() implies (#[trigger] f[i]).seq < (
    #[trigger] f[k]).seq by {
        assert(f[i] == steps[i]);
        assert(f[k] == steps[k]);
    }
}

proof fn lemma_selected_increasing(
    steps: Seq<StepView>,
    session: Option<Seq<char>>,
    file: Option<Seq<char>>,
    since: Option<u64>,
)
    requires
        increasing(steps),
    ensures
        increasing(selected(steps, session, file, since)),
        forall|i: int|
            0 <= i < selected(steps, session, file, since).len() ==> (#[trigger] selected(
                steps,
                session,
                file,
                since,
            )[i]).seq <= last_seq(steps) && asked(
                selected(steps, session, file, since)[i],
                session,
                file,
                since,
            ),
    decreases steps.len(),
{
    if steps.len() > 0 {
        let f = steps.drop_last();
        lemma_drop_increasing(steps);
        lemma_selected_increasing(f, session, file, since);
        lemma_last_seq(steps, steps.len() - 1);
        let s = selected(f, session, file, since);
        let all = selected(steps, session, file, since);
        if f.len() > 0 {
            lemma_front_below(steps);
        }
        assert forall|i: int, k: int| 0 <= i < k < all.len() implies (#[trigger] all[i]).seq < (
        #[trigger] all[k]).seq by {
            assert(all[i] == s[i]);
            if k < s.len() {
                assert(all[k] == s[k]);
            } else {
                assert(s[i].seq <= last_seq(f));
            }
        }
        assert forall|i: int| 0 <= i < all.len() implies (#[trigger] all[i]).seq <= last_seq(steps)
            && asked(all[i], session, file, since) by {
            if i < s.len() {
                assert(all[i] == s[i]);
            }
        }
    }
}

proof fn lemma_front_below(steps: Seq<StepView>)
    requires
        increasing(steps),
        steps.len() > 1,
    ensures
        last_seq(steps.drop_last()) < steps.last().seq,
    decreases steps.len(),
{
    let f = steps.drop_last();
    lemma_drop_increasing(steps);
    let m = steps[steps.len() - 2];
    assert(m.seq < steps[steps.len() - 1].seq);
    if f.len() > 1 {
        lemma_front_below(f);
    } else {
        assert(f.drop_last().len() == 0);
    }
    assert(f.last() == m);
}

proof fn lemma_in_sequence_same(steps: Seq<StepView>)
    requires
        increasing(steps),
    ensures
        in_sequence(steps) == steps,
    decreases steps.len(),
{
    if steps.len() > 0 {
        let f = steps.drop_last();
        lemma_drop_increasing(steps);
        lemma_in_sequence_same(f);
        if f.len() > 0 {
            assert(f.last() == steps[steps.len() - 2]);
            assert(steps[steps.len() - 2].seq < steps[steps.len() - 1].seq);
        }
        assert(put(f, steps.last()) == f.push(steps.last()));
        assert(f.push(steps.last()) =~= steps);
    }
}

/// Texts that are kept stay as they are.
pub open spec fn extends(
    more: Map<Seq<char>, Result<Seq<char>, Seq<char>>>,
    blobs: Map<Seq<char>, Result<Seq<char>, Seq<char>>>,
) -> bool {
    forall|h: Seq<char>| #[trigger]
        blobs.contains_key(h) ==> more.contains_key(h) && more[h] == blobs[h]
}

proof fn lemma_recorded_extends(j: JournalView, c: Change)
    ensures
        extends(recorded(j, c).blobs, j.blobs),
{
}

proof fn lemma_restored_extends(
    steps: Seq<StepView>,
    blobs: Map<Seq<char>, Result<Seq<char>, Seq<char>>>,
    more: Map<Seq<char>, Result<Seq<char>, Seq<char>>>,
    at: Option<u64>,
)
    requires
        extends(more, blobs),
        restored(steps, blobs, at) is Ok,
    ensures
        restored(steps, more, at) == restored(steps, blobs, at),
    decreases steps.len(),
{
    if steps.len() > 0 {
        lemma_restored_extends(steps.drop_last(), blobs, more, at);
        match steps.last().after_sha {
            Some(h) => {
                assert(blobs.contains_key(h) ==> more.contains_key(h));
            },
            None => {},
        }
    }
}

proof fn lemma_selected_push(j: JournalView, c: Change, file: Seq<char>)
    ensures
        selected(recorded(j, c).steps, None, Some(file), None) == if c.file@ == file {
            selected(j.steps, None, Some(file), None).push(recorded(j, c).steps.last())
        } else {
            selected(j.steps, None, Some(file), None)
        },
{
    assert(recorded(j, c).steps.drop_last() =~= j.steps);
}

/// A text can be told by its hash: no other text of the log, nor the one before the
/// change, has the same.
pub open spec fn hash_is_its_own(j: JournalView, before: Option<Seq<char>>, text: Seq<char>) -> bool {
    &&& j.blobs.contains_key(hash_of(text)) ==> j.blobs[hash_of(text)] == Ok::<
        Seq<char>,
        Seq<char>,
    >(text)
    &&& before matches Some(b) ==> (hash_of(b) == hash_of(text) ==> b == text)
}

proof fn lemma_text_is_kept(j: JournalView, c: Change, text: Seq<char>)
    requires
        opt_str(c.after) == Some(text),
        c.kept.after,
        byte_len(text) <= MAX_BLOB_BYTES,
        hash_is_its_own(j, opt_str(c.before), text),
    ensures
        blob_at(recorded(j, c).blobs, hash_of(text)) == Ok::<Seq<char>, Seq<char>>(text),
{
    let b = keeping_opt(j.blobs, opt_str(c.before), c.kept.before);
    assert(b.contains_key(hash_of(text)) ==> b[hash_of(text)] == Ok::<Seq<char>, Seq<char>>(text));
    let a = keeping_opt(b, opt_str(c.after), c.kept.after);
    assert(a.contains_key(hash_of(text)) && a[hash_of(text)] == Ok::<Seq<char>, Seq<char>>(text));
}

/// A change that was recorded brings the file back exactly as it left it: the same
/// text, or no file after a deletion, at its place in the log and, until something
/// else is recorded, at the end of it.
pub proof fn recorded_change_is_replayed(j: JournalView, c: Change)
    requires
        increasing(j.steps),
        last_seq(j.steps) < u64::MAX,
        replayed(j, c.file@, None) is Ok,
        opt_str(c.after) matches Some(text) ==> c.kept.after && byte_len(text) <= MAX_BLOB_BYTES
            && hash_is_its_own(j, opt_str(c.before), text),
    ensures
        replayed(recorded(j, c), c.file@, None) == Ok::<Option<Seq<char>>, Seq<char>>(
            opt_str(c.after),
        ),
        replayed(recorded(j, c), c.file@, Some((last_seq(j.steps) + 1) as u64)) == Ok::<
            Option<Seq<char>>,
            Seq<char>,
        >(opt_str(c.after)),
{
    let file = c.file@;
    let after = recorded(j, c);
    let seq = (last_seq(j.steps) + 1) as u64;
    let old_steps = selected(j.steps, None, Some(file), None);
    let new_steps = selected(after.steps, None, Some(file), None);
    log_stays_in_order(j, c);
    lemma_selected_push(j, c, file);
    lemma_selected_increasing(j.steps, None, Some(file), None);
    lemma_selected_increasing(after.steps, None, Some(file), None);
    lemma_in_sequence_same(old_steps);
    lemma_in_sequence_same(new_steps);
    lemma_recorded_extends(j, c);
    lemma_restored_extends(old_steps, j.blobs, after.blobs, None);
    assert(new_steps.drop_last() =~= old_steps);
    lemma_limit_beyond(old_steps, after.blobs, seq);
    match opt_str(c.after) {
        Some(text) => lemma_text_is_kept(j, c, text),
        None => {},
    }
}

proof fn lemma_limit_beyond(
    steps: Seq<StepView>,
    blobs: Map<Seq<char>, Result<Seq<char>, Seq<char>>>,
    at: u64,
)
    requires
        forall|i: int| 0 <= i < steps.len() ==> (#[trigger] steps[i]).seq <= at,
    ensures
        restored(steps, blobs, Some(at)) == restored(steps, blobs, None),
    decreases steps.len(),
{
    if steps.len() > 0 {
        let f = steps.drop_last();
        assert forall|i: int| 0 <= i < f.len() implies (#[trigger] f[i]).seq <= at by {
            assert(f[i] == steps[i]);
        }
        lemma_limit_beyond(f, blobs, at);
        assert(steps[steps.len() - 1].seq <= at);
    }
}

/// What was recorded cannot be changed: later changes, of this file or of others,
/// leave the file as it was at any earlier place in the log.
pub proof fn history_is_kept(j: JournalView, c: Change, file: Seq<char>, at: u64)
    requires
        increasing(j.steps),
        last_seq(j.steps) < u64::MAX,
        at <= last_seq(j.steps),
        replayed(j, file, Some(at)) is Ok,
    ensures
        replayed(recorded(j, c), file, Some(at)) == replayed(j, file, Some(at)),
{
    let after = recorded(j, c);
    let old_steps = selected(j.steps, None, Some(file), None);
    let new_steps = selected(after.steps, None, Some(file), None);
    log_stays_in_order(j, c);
    lemma_selected_push(j, c, file);
    lemma_selected_increasing(j.steps, None, Some(file), None);
    lemma_selected_increasing(after.steps, None, Some(file), None);
    lemma_in_sequence_same(old_steps);
    lemma_in_sequence_same(new_steps);
    lemma_recorded_extends(j, c);
    lemma_restored_extends(old_steps, j.blobs, after.blobs, Some(at));
    if c.file@ == file {
        assert(new_steps.drop_last() =~= old_steps);
    }
}

/// The log after some changes, in order.
pub open spec fn all_recorded(j: JournalView, changes: Seq<Change>) -> JournalView
    decreases changes.len(),
{
    if changes.len() == 0 {
        j
    } else {
        recorded(all_recorded(j, changes.drop_last()), changes.last())
    }
}

/// What was recorded stays, however many changes follow.
pub proof fn history_is_kept_for_good(j: JournalView, later: Seq<Change>, file: Seq<char>, at: u64)
    requires
        increasing(j.steps),
        last_seq(j.steps) + later.len() <= u64::MAX,
        at <= last_seq(j.steps),
        replayed(j, file, Some(at)) is Ok,
    ensures
        increasing(all_recorded(j, later).steps),
        last_seq(all_recorded(j, later).steps) == last_seq(j.steps) + later.len(),
        replayed(all_recorded(j, later), file, Some(at)) == replayed(j, file, Some(at)),
    decreases later.len(),
{
    if later.len() > 0 {
        history_is_kept_for_good(j, later.drop_last(), file, at);
        let k = all_recorded(j, later.drop_last());
        log_stays_in_order(k, later.last());
        history_is_kept(k, later.last(), file, at);
        assert(recorded(k, later.last()).steps.drop_last() =~= k.steps);
    }
}

/// A change that was recorded brings the file back as it left it, whatever is recorded
/// after it: at its place in the log stands the same text, or no file after a deletion.
pub proof fn recorded_change_is_replayed_for_good(j: JournalView, c: Change, later: Seq<Change>)
    requires
        increasing(j.steps),
        last_seq(j.steps) + 1 + later.len() <= u64::MAX,
        replayed(j, c.file@, None) is Ok,
        opt_str(c.after) matches Some(text) ==> c.kept.after && byte_len(text) <= MAX_BLOB_BYTES
            && hash_is_its_own(j, opt_str(c.before), text),
    ensures
        replayed(
            all_recorded(recorded(j, c), later),
            c.file@,
            Some((last_seq(j.steps) + 1) as u64),
        ) == Ok::<Option<Seq<char>>, Seq<char>>(opt_str(c.after)),
{
    let k = recorded(j, c);
    log_stays_in_order(j, c);
    recorded_change_is_replayed(j, c);
    assert(k.steps.drop_last() =~= j.steps);
    history_is_kept_for_good(k, later, c.file@, (last_seq(j.steps) + 1) as u64);
}

/// A change to one file does not touch what another is brought back to.
pub proof fn other_files_are_not_touched(j: JournalView, c: Change, file: Seq<char>)
    requires
        increasing(j.steps),
        last_seq(j.steps) < u64::MAX,
        c.file@ != file,
        replayed(j, file, None) is Ok,
    ensures
        replayed(recorded(j, c), file, None) == replayed(j, file, None),
{
    lemma_selected_push(j, c, file);
    lemma_recorded_extends(j, c);
    lemma_restored_extends(
        in_sequence(selected(j.steps, None, Some(file), None)),
        j.blobs,
        recorded(j, c).blobs,
        None,
    );
}

/// A change that was recorded is found: it is the last one of its session and file.
pub proof fn recorded_change_is_found(j: JournalView, c: Change)
    ensures
        selected(recorded(j, c).steps, Some(c.session@), Some(c.file@), None) == selected(
            j.steps,
            Some(c.session@),
            Some(c.file@),
            None,
        ).push(recorded(j, c).steps.last()),
{
    assert(recorded(j, c).steps.drop_last() =~= j.steps);
}

} // verus!
