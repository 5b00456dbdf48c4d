//! What holds of every journal of changes.

use vstd::prelude::*;

use crate::file_shared::{diff_text, hash_of};
use crate::format::byte_len;
use crate::journal::log::{
    blob_at, filled_lines, in_sequence, keeping, last_seq, patch_text_of, patches_of, put,
    recorded, replayed, restored, selected, text_under, Change, JournalView, StepView,
};
use crate::journal::tool::{
    cli_call, count_line, digits_value, export_options, inside, journal_reply, listing_reply, number,
    query_options, replay_options, said_of, CliView, ReplyView,
};
use crate::json::{member, str_at, u64_at, Json};
use crate::laws::text::numeral;
use crate::refusal::RefusalView;
use crate::text::trim;

verus! {

/// The changes that are asked for are those of the session and of the file that are named,
/// made no earlier than the time that is named: all of them, in the order of the log.
pub proof fn query_gives_what_is_asked_for(
    steps: Seq<StepView>,
    session: Option<Seq<char>>,
    file: Option<Seq<char>>,
    since: Option<u64>,
)
    ensures
        selected(steps, session, file, since) == steps.filter(
            |s: StepView|
                (session is None || session == Some(s.session)) && (file is None || file == Some(
                    s.file,
                )) && (since is None || since->0 <= s.ts),
        ),
    decreases steps.len(),
{
    reveal(Seq::filter);
    if steps.len() > 0 {
        query_gives_what_is_asked_for(steps.drop_last(), session, file, since);
    }
    assert(selected(steps, session, file, since) =~= steps.filter(
        |s: StepView|
            (session is None || session == Some(s.session)) && (file is None || file == Some(s.file))
                && (since is None || since->0 <= s.ts),
    ));
}

/// Changes are replayed in the order of their places, each of them once.
pub proof fn replay_goes_in_sequence(steps: Seq<StepView>)
    ensures
        in_sequence(steps).to_multiset() == steps.to_multiset(),
        forall|i: int, j: int|
            0 <= i < j < in_sequence(steps).len() ==> (#[trigger] in_sequence(steps)[i]).seq <= (
            #[trigger] in_sequence(steps)[j]).seq,
    decreases steps.len(),
{
    if steps.len() > 0 {
        let front = steps.drop_last();
        replay_goes_in_sequence(front);
        lemma_put(in_sequence(front), steps.last());
        assert(steps =~= front.push(steps.last()));
        front.to_multiset_ensures();
        assert(front.push(steps.last()).to_multiset() == front.to_multiset().insert(steps.last()));
    }
}

proof fn lemma_put(sorted: Seq<StepView>, r: StepView)
    requires
        forall|i: int, j: int|
            0 <= i < j < sorted.len() ==> (#[trigger] sorted[i]).seq <= (#[trigger] sorted[j]).seq,
    ensures
        put(sorted, r).to_multiset() == sorted.to_multiset().insert(r),
        put(sorted, r).len() == sorted.len() + 1,
        forall|i: int, j: int|
            0 <= i < j < put(sorted, r).len() ==> (#[trigger] put(sorted, r)[i]).seq <= (
            #[trigger] put(sorted, r)[j]).seq,
        forall|i: int|
            0 <= i < put(sorted, r).len() ==> (#[trigger] put(sorted, r)[i]).seq <= r.seq || (
            sorted.len() > 0 && put(sorted, r)[i].seq <= sorted.last().seq),
    decreases sorted.len(),
{
    let out = put(sorted, r);
    if sorted.len() > 0 && sorted.last().seq > r.seq {
        let front = sorted.drop_last();
        assert forall|i: int, j: int| 0 <= i < j < front.len() implies (#[trigger] front[i]).seq <= (
        #[trigger] front[j]).seq by {
            assert(sorted[i].seq <= sorted[j].seq);
        }
        lemma_put(front, r);
        let inner = put(front, r);
        assert(sorted =~= front.push(sorted.last()));
        front.to_multiset_ensures();
        inner.to_multiset_ensures();
        assert(out.to_multiset() == inner.to_multiset().insert(sorted.last()));
        assert(sorted.to_multiset() == front.to_multiset().insert(sorted.last()));
        assert(out.to_multiset() =~= sorted.to_multiset().insert(r));
        assert forall|i: int| 0 <= i < inner.len() implies (#[trigger] inner[i]).seq
            <= sorted.last().seq by {
            if front.len() > 0 {
                assert(sorted[front.len() - 1].seq <= sorted[sorted.len() - 1].seq);
                assert(front.last() == sorted[front.len() - 1]);
            }
        }
        assert forall|i: int, j: int| 0 <= i < j < out.len() implies (#[trigger] out[i]).seq <= (
        #[trigger] out[j]).seq by {
            if j < inner.len() {
                assert(inner[i].seq <= inner[j].seq);
            } else {
                assert(out[i] == inner[i]);
            }
        }
    } else {
        sorted.to_multiset_ensures();
        assert forall|i: int, j: int| 0 <= i < j < out.len() implies (#[trigger] out[i]).seq <= (
        #[trigger] out[j]).seq by {
            if j < sorted.len() {
                assert(sorted[i].seq <= sorted[j].seq);
            } else {
                assert(out[i] == sorted[i]);
                if i < sorted.len() - 1 {
                    assert(sorted[i].seq <= sorted[sorted.len() - 1].seq);
                }
            }
        }
        assert forall|i: int| 0 <= i < out.len() implies (#[trigger] out[i]).seq <= r.seq by {
            if i < sorted.len() - 1 {
                assert(sorted[i].seq <= sorted[sorted.len() - 1].seq);
            }
        }
    }
}

/// The place of a new change lies behind all others, and right behind one of them.
pub proof fn next_place_is_behind_all(steps: Seq<StepView>)
    ensures
        forall|i: int| 0 <= i < steps.len() ==> (#[trigger] steps[i]).seq <= last_seq(steps),
        steps.len() == 0 ==> last_seq(steps) == 0,
        last_seq(steps) > 0 ==> exists|i: int|
            0 <= i < steps.len() && (#[trigger] steps[i]).seq == last_seq(steps),
    decreases steps.len(),
{
    if steps.len() > 0 {
        let front = steps.drop_last();
        next_place_is_behind_all(front);
        assert forall|i: int| 0 <= i < steps.len() implies (#[trigger] steps[i]).seq <= last_seq(
            steps,
        ) by {
            if i < front.len() {
                assert(front[i] == steps[i]);
            }
        }
        if last_seq(steps) > 0 {
            if steps.last().seq > last_seq(front) {
                assert(steps[steps.len() - 1].seq == last_seq(steps));
            } else {
                let i = choose|i: int|
                    0 <= i < front.len() && (#[trigger] front[i]).seq == last_seq(front);
                assert(steps[i] == front[i]);
            }
        }
    }
}

/// A recorded change says who made it, when, by which tool, to which file and how, and names
/// the file's fingerprints before and after as far as their texts are kept.
pub proof fn recorded_step_says_what_changed(j: JournalView, c: Change)
    requires
        last_seq(j.steps) < u64::MAX,
    ensures
        ({
            let next = recorded(j, c);
            let s = next.steps.last();
            &&& next.steps.len() == j.steps.len() + 1
            &&& next.steps.drop_last() == j.steps
            &&& s.seq == last_seq(j.steps) + 1
            &&& s.session == c.session@
            &&& s.tool_use_id == c.tool_use_id@
            &&& s.ts == c.ts
            &&& s.tool == c.tool@
            &&& s.file == c.file@
            &&& s.op == c.op@
            &&& s.result == c.result@
            &&& c.before matches Some(b) ==> (c.kept.before ==> s.before_sha == Some(hash_of(b@)))
            &&& c.after matches Some(a) ==> (c.kept.after ==> s.after_sha == Some(hash_of(a@)))
            &&& c.before is None || !c.kept.before ==> s.before_sha is None
            &&& c.after is None || !c.kept.after ==> s.after_sha is None
        }),
{
    assert(recorded(j, c).steps.drop_last() =~= j.steps);
}

/// A text of up to a megabyte is kept under its fingerprint; a larger one is not, and one
/// that is there already stays.
pub proof fn texts_are_kept_by_size(
    blobs: Map<Seq<char>, Result<Seq<char>, Seq<char>>>,
    content: Seq<char>,
)
    ensures
        byte_len(content) <= 1048576 && !blobs.contains_key(hash_of(content)) ==> blob_at(
            keeping(blobs, content),
            hash_of(content),
        ) == Ok::<Seq<char>, Seq<char>>(content),
        byte_len(content) > 1048576 ==> keeping(blobs, content) == blobs,
        blobs.contains_key(hash_of(content)) ==> keeping(blobs, content) == blobs,
        forall|h: Seq<char>|
            h != hash_of(content) ==> #[trigger] blob_at(keeping(blobs, content), h) == blob_at(
                blobs,
                h,
            ),
{
}

/// A file at a place in the log is what the last change up to there left: its text, or
/// nothing where it deleted the file.
pub proof fn last_change_up_to_the_place_counts(
    steps: Seq<StepView>,
    blobs: Map<Seq<char>, Result<Seq<char>, Seq<char>>>,
    at: Option<u64>,
)
    requires
        steps.len() > 0,
        restored(steps.drop_last(), blobs, at) is Ok,
    ensures
        ({
            let s = steps.last();
            &&& at is Some && at->0 < s.seq ==> restored(steps, blobs, at) == restored(
                steps.drop_last(),
                blobs,
                at,
            )
            &&& at is None || s.seq <= at->0 ==> {
                &&& s.after_sha is None ==> restored(steps, blobs, at) == Ok::<
                    Option<Seq<char>>,
                    Seq<char>,
                >(None)
                &&& s.after_sha matches Some(h) ==> (blob_at(blobs, h) matches Ok(t) ==> restored(
                    steps,
                    blobs,
                    at,
                ) == Ok::<Option<Seq<char>>, Seq<char>>(Some(t)))
                &&& s.after_sha matches Some(h) ==> (blob_at(blobs, h) is Err ==> restored(
                    steps,
                    blobs,
                    at,
                ) is Err)
            }
        }),
        restored(Seq::empty(), blobs, at) == Ok::<Option<Seq<char>>, Seq<char>>(None),
{
}

/// Changes are written as patches one behind the other: a diff where a file was changed, its
/// text where it was added or deleted, and nothing where no text can be had.
pub proof fn patches_show_each_change(
    steps: Seq<StepView>,
    s: StepView,
    blobs: Map<Seq<char>, Result<Seq<char>, Seq<char>>>,
)
    ensures
        patches_of(steps.push(s), blobs) == patches_of(steps, blobs) + patch_text_of(s, blobs),
        patches_of(Seq::empty(), blobs).len() == 0,
        ({
            let b = text_under(blobs, s.before_sha);
            let a = text_under(blobs, s.after_sha);
            &&& b is None && a is None ==> patch_text_of(s, blobs).len() == 0
            &&& b is Some && a is Some && b != a ==> patch_text_of(s, blobs) == diff_text(
                b->0,
                a->0,
                s.file,
            ) + "\n"@
            &&& b is Some && b == a ==> patch_text_of(s, blobs).len() == 0
            &&& b is None && a is Some ==> patch_text_of(s, blobs) == "=== Add File: "@ + s.file
                + " ===\n"@ + a->0 + "\n"@
            &&& b is Some && a is None ==> patch_text_of(s, blobs) == "=== Delete File: "@ + s.file
                + " ===\n"@ + b->0 + "\n"@
        }),
{
    assert(steps.push(s).drop_last() =~= steps);
}

/// The entries of a log on disk are its lines without white space at the ends, but for blank
/// ones.
pub proof fn entries_are_the_filled_lines(lines: Seq<Seq<char>>)
    ensures
        filled_lines(lines) == lines.map_values(|l: Seq<char>| trim(l)).filter(
            |l: Seq<char>| l.len() > 0,
        ),
    decreases lines.len(),
{
    reveal(Seq::filter);
    let f = |l: Seq<char>| trim(l);
    let full = |l: Seq<char>| l.len() > 0;
    if lines.len() > 0 {
        let front = lines.drop_last();
        entries_are_the_filled_lines(front);
        assert(lines.map_values(f).drop_last() =~= front.map_values(f));
        assert(lines.map_values(f).last() == trim(lines.last()));
    } else {
        assert(lines.map_values(f) =~= Seq::<Seq<char>>::empty());
    }
    assert(filled_lines(lines) =~= lines.map_values(f).filter(full));
}

/// A call of the journal that names no action asks for changes: those of the session and the
/// file it names, from the time it names on. An empty session stands for all.
pub proof fn journal_lists_what_is_asked_for(j: JournalView, args: Json, action: Seq<char>)
    requires
        member(args, "format"@) is None,
    ensures
        ({
            let session = match str_at(args, "session"@) {
                Some(s) => if s.len() > 0 {
                    Some(s)
                } else {
                    None
                },
                None => None,
            };
            let steps = selected(j.steps, session, str_at(args, "file"@), u64_at(args, "since"@));
            &&& listing_reply(j, args, action) matches ReplyView::Steps {
                action: a,
                steps: listed,
                text,
                ..
            } && a == action && listed == steps && text == count_line(action, steps.len())
            &&& str_at(args, "action"@) == Some(action) && (action == "query"@ || action
                == "export"@) ==> journal_reply(j, args) == Ok::<ReplyView, RefusalView>(
                listing_reply(j, args, action),
            )
            &&& str_at(args, "action"@) is None ==> journal_reply(j, args) == Ok::<
                ReplyView,
                RefusalView,
            >(listing_reply(j, args, "query"@))
        }),
{
    reveal_strlit("");
    reveal_strlit("json");
    reveal_strlit("patches");
    assert("json"@.len() == 4 && "patches"@.len() == 7);
}

/// An export as patches gives the patches of the changes that are asked for.
pub proof fn export_gives_patches(j: JournalView, args: Json)
    requires
        str_at(args, "format"@) == Some("patches"@),
        str_at(args, "session"@) is None,
        str_at(args, "action"@) == Some("export"@),
    ensures
        journal_reply(j, args) matches Ok(r) && r matches ReplyView::Patches { patches, .. }
            && patches == patches_of(
            selected(j.steps, None, str_at(args, "file"@), u64_at(args, "since"@)),
            j.blobs,
        ),
{
    reveal_strlit("");
    reveal_strlit("export");
    reveal_strlit("query");
}

/// A replay gives the file as it was at the place that is named, or at the end; it needs the
/// file's name, and an action that is not known is refused.
pub proof fn journal_replays_the_file(j: JournalView, args: Json, file: Seq<char>)
    requires
        str_at(args, "action"@) == Some("replay"@),
    ensures
        str_at(args, "file"@) is None ==> (journal_reply(j, args) matches Err(e) && e.code
            == "MISSING_FILE"@),
        str_at(args, "file"@) == Some(file) && file.len() == 0 ==> (journal_reply(j, args) matches Err(
            e,
        ) && e.code == "MISSING_FILE"@),
        str_at(args, "file"@) == Some(file) && file.len() > 0 ==> {
            &&& replayed(j, file, u64_at(args, "at"@)) matches Ok(content) ==> (journal_reply(
                j,
                args,
            ) matches Ok(r) && r matches ReplyView::File { file: f, at, out, content: c, text }
                && f == file && at == u64_at(args, "at"@) && out == str_at(args, "out"@) && c
                == content && (content matches Some(t) ==> text == t))
            &&& replayed(j, file, u64_at(args, "at"@)) matches Err(e) ==> (journal_reply(
                j,
                args,
            ) matches Err(x) && x.code == "REPLAY_FAILED"@ && x.message == e)
        },
{
    reveal_strlit("replay");
    reveal_strlit("query");
    reveal_strlit("export");
    assert("replay"@[0] == 'r' && "export"@[0] == 'e');
}

/// An action that the journal does not know is refused.
pub proof fn unknown_actions_are_refused(j: JournalView, args: Json, action: Seq<char>)
    requires
        str_at(args, "action"@) == Some(action),
        action != "query"@ && action != "export"@ && action != "replay"@,
    ensures
        journal_reply(j, args) matches Err(e) && e.code == "INVALID_ACTION"@,
{
}

/// A number on the command line is a list of digits, perhaps behind a plus sign, that stands
/// for a number of 64 bits; anything else is none.
pub proof fn numbers_are_lists_of_digits(s: Seq<char>)
    ensures
        (forall|i: int| 0 <= i < s.len() ==> '0' <= #[trigger] s[i] <= '9') <==> digits_value(
            s,
        ) is Some,
        digits_value(s) matches Some(n) ==> n == numeral(s),
        s.len() > 0 && digits_value(s) is Some && numeral(s) <= u64::MAX ==> (number(s) matches Some(
            n,
        ) && n == numeral(s)),
        s.len() > 0 && digits_value(s) is Some && numeral(s) > u64::MAX ==> number(s) is None,
        s.len() > 0 && s[0] != '+' && digits_value(s) is None ==> number(s) is None,
        s.len() == 0 ==> number(s) is None,
        s.len() > 0 && digits_value(s) is Some ==> number(seq!['+'] + s) == number(s),
    decreases s.len(),
{
    if s.len() > 0 {
        let front = s.drop_last();
        numbers_are_lists_of_digits(front);
        if forall|i: int| 0 <= i < s.len() ==> '0' <= #[trigger] s[i] <= '9' {
            assert forall|i: int| 0 <= i < front.len() implies '0' <= #[trigger] front[i] <= '9' by {
                assert(front[i] == s[i]);
            }
            assert('0' <= s[s.len() - 1] <= '9');
        }
        if digits_value(s) is Some {
            assert forall|i: int| 0 <= i < s.len() implies '0' <= #[trigger] s[i] <= '9' by {
                if i < front.len() {
                    assert(front[i] == s[i]);
                }
            }
            assert('0' <= s[0] <= '9');
            assert((seq!['+'] + s).skip(1) =~= s);
            assert((seq!['+'] + s)[0] == '+');
        }
    }
}

/// The command line: each option of a query, a replay or an export takes the argument behind
/// it, whatever that is.
pub proof fn options_take_the_next_argument(s: Seq<char>, f: Seq<char>, t: Seq<char>)
    ensures
        cli_call(seq!["query"@]) == Ok::<CliView, Seq<char>>(
            CliView::Query { session: None, file: None, since: None },
        ),
        cli_call(seq!["query"@, "--session"@, s, "--file"@, f, "--since"@, t]) == Ok::<
            CliView,
            Seq<char>,
        >(CliView::Query { session: Some(s), file: Some(f), since: number(t) }),
        f.len() > 0 ==> cli_call(seq!["replay"@, f]) == Ok::<CliView, Seq<char>>(
            CliView::Replay { target: f, at: None, out: None },
        ),
        f.len() > 0 ==> cli_call(seq!["replay"@, f, "--at"@, t, "--out"@, s]) == Ok::<
            CliView,
            Seq<char>,
        >(CliView::Replay { target: f, at: number(t), out: Some(s) }),
        cli_call(seq!["export"@, "--session"@, s, "--format"@, "patches"@]) == Ok::<
            CliView,
            Seq<char>,
        >(CliView::Export { session: Some(s), patches: true }),
        s != "--session"@ && s != "--format"@ ==> cli_call(seq!["export"@, s]) == Ok::<
            CliView,
            Seq<char>,
        >(CliView::Export { session: Some(s), patches: false }),
        s != "query"@ && s != "replay"@ && s != "export"@ ==> cli_call(seq![s]) is Err,
        f.len() == 0 ==> cli_call(seq!["replay"@, f]) is Err,
{
    reveal_strlit("query");
    reveal_strlit("replay");
    reveal_strlit("export");
    reveal_strlit("--session");
    reveal_strlit("--file");
    reveal_strlit("--since");
    reveal_strlit("--at");
    reveal_strlit("--out");
    reveal_strlit("--format");
    assert("query"@.len() == 5 && "replay"@.len() == 6 && "export"@.len() == 6);
    assert("replay"@[0] == 'r' && "export"@[0] == 'e');
    assert("--session"@.len() == 9 && "--file"@.len() == 6 && "--since"@.len() == 7);
    assert("--at"@.len() == 4 && "--out"@.len() == 5 && "--format"@.len() == 8);
    reveal_with_fuel(query_options, 5);
    reveal_with_fuel(replay_options, 5);
    reveal_with_fuel(export_options, 5);
}

/// What is said of a replay: the file's text and success where it was there, success too
/// where it was not, and failure where it could not be brought back.
pub proof fn replay_fails_only_on_an_error(r: Result<Option<Seq<char>>, Seq<char>>)
    ensures
        r matches Ok(Some(content)) ==> said_of(r) == (content, 0i32),
        r matches Ok(None) ==> said_of(r).1 == 0,
        r is Err ==> said_of(r).1 == 1,
{
}

/// A file in a directory stands behind a slash.
pub proof fn files_stand_behind_a_slash(dir: Seq<char>, name: Seq<char>)
    ensures
        dir.len() > 0 && dir.last() != '/' ==> inside(dir, name) == dir + "/"@ + name,
        dir.len() > 0 && dir.last() == '/' ==> inside(dir, name) == dir + name,
        dir.len() == 0 ==> inside(dir, name) == name,
{
    assert(dir.len() == 0 ==> dir + name =~= name);
}

/// A list of changes is counted, and an empty one says so.
pub proof fn changes_are_counted(action: Seq<char>, n: nat)
    ensures
        n > 0 ==> count_line(action, n) == "[OK] journal "@ + action + ": "@ + crate::format::dec(n)
            + " step(s)\n"@,
        n == 0 ==> count_line(action, n) == "[OK] journal "@ + action + ": no matching steps\n"@,
{
}

/// Changes at the same place are replayed in the order in which they were recorded.
pub proof fn equal_places_keep_their_order(steps: Seq<StepView>, a: StepView, b: StepView)
    requires
        a.seq == b.seq,
        forall|i: int| 0 <= i < steps.len() ==> (#[trigger] steps[i]).seq <= a.seq,
    ensures
        in_sequence(steps.push(a).push(b)) == in_sequence(steps).push(a).push(b),
{
    let s1 = steps.push(a);
    let s2 = s1.push(b);
    assert(s1.drop_last() =~= steps);
    assert(s2.drop_last() =~= s1);
    lemma_last_place(steps, a.seq);
    assert(in_sequence(s1) == put(in_sequence(steps), a));
    assert(in_sequence(s2) == put(in_sequence(s1), b));
}

proof fn lemma_last_place(steps: Seq<StepView>, n: u64)
    requires
        forall|i: int| 0 <= i < steps.len() ==> (#[trigger] steps[i]).seq <= n,
    ensures
        in_sequence(steps).len() == steps.len(),
        in_sequence(steps).len() > 0 ==> in_sequence(steps).last().seq <= n,
    decreases steps.len(),
{
    if steps.len() > 0 {
        let front = steps.drop_last();
        assert forall|i: int| 0 <= i < front.len() implies (#[trigger] front[i]).seq <= n by {
            assert(front[i] == steps[i]);
        }
        lemma_last_place(front, n);
        replay_goes_in_sequence(front);
        lemma_put(in_sequence(front), steps.last());
        assert(steps[steps.len() - 1].seq <= n);
        let out = in_sequence(steps);
        assert(out[out.len() - 1].seq <= n);
    }
}

} // verus!
