//! What holds of every listing, write, deletion and copy of files.

use vstd::prelude::*;

use crate::copy_range::{
    copy_args_error, copy_outcome, first_five, first_hit, hits, hits_upto, mode_name, mode_named,
    plain_line, source_range, target_line, CopyCall, CopyRefusalView, Mode,
};
use crate::edit::read::FileRead;
use crate::file_glob::{after_offer, glob_plan, glob_text, listed};
use crate::file_mutate::{
    after_event, asks_to_write, flat_name, write_decision, StepView, TrashEvent, WriteCall,
    WriteView,
};
use crate::file_shared::{hash_of, lf_view};
use crate::grep_tool::compiles;
use crate::json::{member, opt_text, str_at, Json};
use crate::lines::{join, nl};
use crate::numbered::counted_lines;
use crate::outside::glob_found;
use crate::text::{is_blank, trim, trim_end};

verus! {

/// The files that a listing gives are those of the walk that match, in its order, and of
/// these the first ones up to the number asked for.
pub proof fn listing_is_the_first_matches(
    pattern: Seq<char>,
    max: int,
    files: Seq<Seq<char>>,
    backslash_separates: bool,
)
    requires
        0 <= max,
    ensures
        ({
            let fitting = files.filter(
                |f: Seq<char>|
                    compiles(pattern, backslash_separates) && glob_found(
                        pattern,
                        f,
                        backslash_separates,
                    ),
            );
            listed(pattern, max, files, backslash_separates) == (if fitting.len() <= max {
                fitting
            } else {
                fitting.take(max)
            })
        }),
    decreases files.len(),
{
    reveal(Seq::filter);
    let fits = |f: Seq<char>|
        compiles(pattern, backslash_separates) && glob_found(pattern, f, backslash_separates);
    if files.len() > 0 {
        let front = files.drop_last();
        listing_is_the_first_matches(pattern, max, front, backslash_separates);
        let before = front.filter(fits);
        let all = files.filter(fits);
        if fits(files.last()) {
            assert(all == before.push(files.last()));
            if before.len() >= max {
                assert(all.take(max) =~= before.take(max));
                assert(before.len() == max ==> before.take(max) =~= before);
            }
        }
    }
    assert(listed(pattern, max, files, backslash_separates).len() <= files.len());
}

/// One more file is added to a listing exactly when it matches.
pub proof fn offered_file_is_added_when_it_matches(
    matches: Seq<Seq<char>>,
    pattern: Seq<char>,
    rel: Seq<char>,
    backslash_separates: bool,
)
    ensures
        compiles(pattern, backslash_separates) && glob_found(pattern, rel, backslash_separates)
            ==> after_offer(matches, pattern, rel, backslash_separates) == matches.push(rel),
        !(compiles(pattern, backslash_separates) && glob_found(pattern, rel, backslash_separates))
            ==> after_offer(matches, pattern, rel, backslash_separates) == matches,
{
}

/// A listing is planned exactly when its pattern, trimmed, is there and compiles; it gives
/// 500 files where no number is asked for, and from 1 to 10000 where one is.
pub proof fn listing_needs_a_pattern(args: Json, backslash_separates: bool)
    ensures
        ({
            let plan = glob_plan(args, backslash_separates);
            &&& str_at(args, "pattern"@) is None ==> plan is Err
            &&& str_at(args, "pattern"@) matches Some(p) ==> {
                &&& trim(p).len() == 0 ==> plan is Err
                &&& trim(p).len() > 0 ==> (plan is Ok <==> compiles(trim(p), backslash_separates))
                &&& plan matches Ok(c) ==> c.0 == trim(p)
            }
            &&& plan matches Ok(c) ==> {
                &&& member(args, "max_results"@) is None ==> c.1 == 500
                &&& member(args, "max_results"@) matches Some(Json::Uint(n)) ==> {
                    &&& n == 0 ==> c.1 == 1
                    &&& 1 <= n <= 10000 ==> c.1 == n
                    &&& n > 10000 ==> c.1 == 10000
                }
            }
        }),
{
}

/// The answer to a listing names its files one to a line, and says when it was cut short or
/// when there are none.
pub proof fn listing_is_shown(matches: Seq<Seq<char>>, truncated: bool, max: u64)
    ensures
        join(matches, nl()).len() > 0 && !truncated ==> glob_text(matches, truncated, max) == join(
            matches,
            nl(),
        ),
        matches.len() == 0 && !truncated ==> glob_text(matches, truncated, max)
            == "(no files match the pattern)"@,
        truncated ==> join(matches, nl()).is_prefix_of(glob_text(matches, truncated, max))
            && glob_text(matches, truncated, max).len() > join(matches, nl()).len(),
{
    reveal_strlit("\n... truncated at ");
    let t = join(matches, nl());
    assert(t + Seq::<char>::empty() =~= t);
    if truncated {
        assert(glob_text(matches, truncated, max).take(t.len() as int) =~= t);
    }
}

/// A write does what its arguments say: the content as it is, appended, tried out or bound to
/// a fingerprint only where they say so.
pub proof fn write_is_as_asked_for(args: Json, path: Seq<char>, call: WriteCall)
    requires
        asks_to_write(args, path, call),
    ensures
        call.path@ == path,
        str_at(args, "content"@) matches Some(c) ==> call.content@ == c,
        call.append <==> member(args, "append"@) == Some(Json::Bool(true)),
        call.dry_run <==> member(args, "dry_run"@) == Some(Json::Bool(true)),
        str_at(args, "expected_hash"@) matches Some(h) ==> call.expected_hash@ == h,
        str_at(args, "expected_hash"@) is None ==> call.expected_hash@.len() == 0,
        str_at(args, "content"@) is None ==> call.content@.len() == 0,
{
    reveal_strlit("");
}

/// A write is refused exactly when the fingerprint it goes by is not that of the file: the
/// one the call names, or else the one under which a tool last saw the file. Any other write
/// is made, or shown where it is only tried out.
pub proof fn stale_write_is_refused_and_no_other(
    known: Option<Seq<char>>,
    call: WriteCall,
    file: Option<Seq<char>>,
)
    ensures
        ({
            let now = hash_of(
                lf_view(
                    match file {
                        Some(c) => c,
                        None => Seq::empty(),
                    },
                ),
            );
            let named = call.expected_hash@.len() > 0;
            let d = write_decision(known, call, file);
            &&& named && call.expected_hash@ != now ==> d == (WriteView::Stale {
                expected: call.expected_hash@,
                actual: now,
                named: true,
            })
            &&& !named ==> (known matches Some(k) ==> (k != now ==> d == (WriteView::Stale {
                expected: k,
                actual: now,
                named: false,
            })))
            &&& (named && call.expected_hash@ == now) || (!named && (known is None || known == Some(
                now,
            ))) ==> {
                &&& call.dry_run ==> (d matches WriteView::Preview { base_hash, .. } && base_hash
                    == now)
                &&& !call.dry_run ==> d is Write
            }
        }),
{
}

/// What a write leaves on disk: its content, behind what was there where it appends.
pub proof fn append_keeps_what_was_there(
    known: Option<Seq<char>>,
    call: WriteCall,
    file: Option<Seq<char>>,
)
    ensures
        write_decision(known, call, file) matches WriteView::Write { after, .. } ==> {
            &&& !call.append ==> after == call.content@
            &&& call.append && file is None ==> after == call.content@
            &&& call.append ==> (file matches Some(before) ==> after == before + call.content@)
        },
{
    assert(Seq::<char>::empty() + call.content@ =~= call.content@);
}

/// A write that changes nothing shows no diff.
pub proof fn unchanged_write_has_no_diff(
    known: Option<Seq<char>>,
    call: WriteCall,
    before: Seq<char>,
)
    requires
        !call.append,
        lf_view(before) == lf_view(call.content@),
    ensures
        write_decision(known, call, Some(before)) matches WriteView::Write { diff, .. } ==> diff is None,
{
    assert(is_blank(Seq::<char>::empty()));
}

/// A name in the trash is one component: no character in it separates names, and all others
/// stand as they were, in order.
pub proof fn trash_names_are_flat(a: Seq<char>, b: Seq<char>, c: char)
    ensures
        flat_name(a + b) == flat_name(a) + flat_name(b),
        c != '/' && c != '\\' && c != ':' ==> flat_name(seq![c]) == seq![c],
        c == '/' || c == '\\' || c == ':' ==> flat_name(seq![c]) == seq!['_', '_'],
        !flat_name(a).contains('/') && !flat_name(a).contains('\\') && !flat_name(a).contains(':'),
    decreases b.len(), a.len(),
{
    reveal_strlit("__");
    assert("__"@ =~= seq!['_', '_']);
    assert(seq![c].drop_last() =~= Seq::<char>::empty());
    assert(flat_name(Seq::<char>::empty()) =~= Seq::<char>::empty());
    assert(flat_name(seq![c]) =~= (if c == '/' || c == '\\' || c == ':' {
        seq!['_', '_']
    } else {
        seq![c]
    }));
    if b.len() == 0 {
        assert(a + b =~= a);
        assert(flat_name(a) + flat_name(b) =~= flat_name(a));
    } else {
        trash_names_are_flat(a, b.drop_last(), c);
        assert((a + b).drop_last() =~= a + b.drop_last());
        assert(flat_name(a + b) =~= flat_name(a) + flat_name(b));
    }
    if b.len() == 0 && a.len() > 0 {
        trash_names_are_flat(a.drop_last(), b, c);
        let front = flat_name(a.drop_last());
        let all = flat_name(a);
        let tail = all.skip(front.len() as int);
        assert(all =~= front + tail);
        assert forall|i: int| 0 <= i < all.len() implies all[i] != '/' && all[i] != '\\' && all[i]
            != ':' by {
            if i < front.len() {
                assert(front.contains(front[i]));
            }
        }
    }
}

/// The way to the trash: a rename is all it takes; a file that cannot be renamed is copied,
/// then removed; a directory that cannot be renamed stays, and so does a file that cannot be
/// copied.
pub proof fn file_reaches_the_trash_or_stays(
    path: Seq<char>,
    name: Seq<char>,
    trash_path: Seq<char>,
    event: TrashEvent,
)
    ensures
        ({
            let next = after_event(path, name, trash_path, event);
            &&& event is Renamed ==> (next matches StepView::Done { ok, gone, .. } && ok && gone)
            &&& event == (TrashEvent::RenameFailed { is_dir: false }) ==> next is Copy
            &&& event == (TrashEvent::RenameFailed { is_dir: true }) ==> (
            next matches StepView::Done { ok, gone, code, .. } && !ok && !gone && code == Some(
                "CROSS_DEVICE_DIR"@,
            ))
            &&& event is Copied ==> next is Remove
            &&& event is CopyFailed ==> (next matches StepView::Done { ok, gone, code, .. } && !ok
                && !gone && code == Some("COPY_FAILED"@))
            &&& event is Removed ==> (next matches StepView::Done { ok, gone, .. } && ok && gone)
            &&& event is RemoveFailed ==> (next matches StepView::Done { ok, gone, .. } && ok
                && !gone)
        }),
{
}

/// An anchor means every line that is equal to it but for white space at the end, and no
/// other; the lines come in order.
pub proof fn anchor_means_whole_lines(lines: Seq<Seq<char>>, anchor: Seq<char>, n: int)
    requires
        0 <= n <= lines.len(),
        lines.len() <= usize::MAX,
    ensures
        forall|i: int|
            0 <= i < n ==> (hits_upto(lines, anchor, n).contains(i as usize) <==> trim_end(
                #[trigger] lines[i],
            ) == trim_end(anchor)),
        forall|k: int|
            0 <= k < hits_upto(lines, anchor, n).len() ==> (#[trigger] hits_upto(
                lines,
                anchor,
                n,
            )[k]) < n && trim_end(lines[hits_upto(lines, anchor, n)[k] as int]) == trim_end(anchor),
        forall|j: int, k: int|
            0 <= j < k < hits_upto(lines, anchor, n).len() ==> hits_upto(lines, anchor, n)[j]
                < hits_upto(lines, anchor, n)[k],
    decreases n,
{
    if n > 0 {
        anchor_means_whole_lines(lines, anchor, n - 1);
        let front = hits_upto(lines, anchor, n - 1);
        let all = hits_upto(lines, anchor, n);
        assert forall|k: int| 0 <= k < all.len() implies (#[trigger] all[k]) < n && trim_end(
            lines[all[k] as int],
        ) == trim_end(anchor) by {
            if k < front.len() {
                assert(front[k] == all[k]);
            }
        }
        assert forall|i: int| 0 <= i < n implies (all.contains(i as usize) <==> trim_end(
            #[trigger] lines[i],
        ) == trim_end(anchor)) by {
            if trim_end(lines[i]) == trim_end(anchor) {
                if i < n - 1 {
                    assert(front.contains(i as usize));
                    let k = choose|k: int| 0 <= k < front.len() && front[k] == i as usize;
                    assert(all[k] == i as usize);
                } else {
                    assert(all[all.len() - 1] == i as usize);
                }
            } else if all.contains(i as usize) {
                let k = choose|k: int| 0 <= k < all.len() && all[k] == i as usize;
                assert(all[k] < n);
            }
        }
        assert forall|j: int, k: int| 0 <= j < k < all.len() implies all[j] < all[k] by {
            assert(front[j] == all[j]);
            if k < front.len() {
                assert(front[k] == all[k]);
            }
        }
    }
}

proof fn lemma_only_hit(lines: Seq<Seq<char>>, anchor: Seq<char>, s: int, t: int)
    requires
        lines.len() <= usize::MAX,
        0 <= s < lines.len(),
        trim_end(lines[s]) == trim_end(anchor),
    ensures
        (forall|i: int|
            0 <= i < lines.len() && trim_end(#[trigger] lines[i]) == trim_end(anchor) ==> i == s)
            ==> hits(lines, anchor) == seq![s as usize],
        0 <= t < lines.len() && t != s && trim_end(lines[t]) == trim_end(anchor) ==> hits(
            lines,
            anchor,
        ).len() > 1,
{
    let n = lines.len() as int;
    anchor_means_whole_lines(lines, anchor, n);
    let all = hits(lines, anchor);
    assert(all.contains(s as usize));
    let k = choose|k: int| 0 <= k < all.len() && all[k] == s as usize;
    if forall|i: int|
        0 <= i < lines.len() && trim_end(#[trigger] lines[i]) == trim_end(anchor) ==> i == s {
        assert forall|j: int| 0 <= j < all.len() implies all[j] == s by {
            assert(all[j] < n);
        }
        if all.len() > 1 {
            assert(all[0] < all[1]);
        }
        assert(all =~= seq![s as usize]);
    }
    if 0 <= t < lines.len() && t != s && trim_end(lines[t]) == trim_end(anchor) {
        assert(all.contains(t as usize));
        let j = choose|j: int| 0 <= j < all.len() && all[j] == t as usize;
        assert(j != k);
    }
}

/// The lines that are copied: from the only line that the first anchor means to the first
/// line from there on that the last anchor means, or that one line without a last anchor. An
/// anchor that means no line, or a first one that means two, is refused.
pub proof fn copied_range_goes_from_anchor_to_anchor(
    lines: Seq<Seq<char>>,
    start_anchor: Seq<char>,
    end_anchor: Seq<char>,
    s: int,
    e: int,
)
    requires
        lines.len() <= usize::MAX,
        0 <= s < lines.len(),
        trim_end(lines[s]) == trim_end(start_anchor),
    ensures
        (exists|t: int|
            0 <= t < lines.len() && t != s && trim_end(#[trigger] lines[t]) == trim_end(
                start_anchor,
            )) ==> (source_range(lines, start_anchor, Some(end_anchor)) matches Err(x) && x.code
            == "SOURCE_START_AMBIGUOUS"@),
        (forall|i: int|
            0 <= i < lines.len() && trim_end(#[trigger] lines[i]) == trim_end(start_anchor) ==> i
                == s) ==> {
            &&& source_range(lines, start_anchor, None) == Ok::<(int, int), CopyRefusalView>((s, s))
            &&& s <= e < lines.len() && trim_end(lines[e]) == trim_end(end_anchor) && (forall|i: int|
                s <= i < e ==> trim_end(#[trigger] lines[i]) != trim_end(end_anchor))
                ==> source_range(lines, start_anchor, Some(end_anchor)) == Ok::<
                (int, int),
                CopyRefusalView,
            >((s, e))
            &&& (forall|i: int|
                s <= i < lines.len() ==> trim_end(#[trigger] lines[i]) != trim_end(end_anchor)) ==> (
            source_range(lines, start_anchor, Some(end_anchor)) matches Err(x) && x.code
                == "SOURCE_END_NOT_FOUND"@)
        },
{
    lemma_only_hit(lines, start_anchor, s, s);
    if exists|t: int|
        0 <= t < lines.len() && t != s && trim_end(#[trigger] lines[t]) == trim_end(start_anchor) {
        let t = choose|t: int|
            0 <= t < lines.len() && t != s && trim_end(#[trigger] lines[t]) == trim_end(
                start_anchor,
            );
        lemma_only_hit(lines, start_anchor, s, t);
    }
    lemma_first_hit(lines, end_anchor, s, e);
}

proof fn lemma_first_hit(lines: Seq<Seq<char>>, anchor: Seq<char>, i: int, e: int)
    requires
        0 <= i <= lines.len(),
    ensures
        i <= e < lines.len() && trim_end(lines[e]) == trim_end(anchor) && (forall|k: int|
            i <= k < e ==> trim_end(#[trigger] lines[k]) != trim_end(anchor)) ==> first_hit(
            lines,
            anchor,
            i,
        ) == Some(e),
        (forall|k: int| i <= k < lines.len() ==> trim_end(#[trigger] lines[k]) != trim_end(anchor))
            ==> first_hit(lines, anchor, i) is None,
    decreases lines.len() - i,
{
    if i < lines.len() && trim_end(lines[i]) != trim_end(anchor) {
        lemma_first_hit(lines, anchor, i + 1, e);
    }
}

/// An anchor that means no line is refused.
pub proof fn missing_anchor_is_refused(
    lines: Seq<Seq<char>>,
    anchor: Seq<char>,
    end_anchor: Option<Seq<char>>,
    mode: Mode,
)
    requires
        lines.len() <= usize::MAX,
        forall|i: int| 0 <= i < lines.len() ==> trim_end(#[trigger] lines[i]) != trim_end(anchor),
    ensures
        source_range(lines, anchor, end_anchor) matches Err(x) && x.code
            == "SOURCE_START_NOT_FOUND"@,
        mode == Mode::InsertAfter || mode == Mode::InsertBefore ==> (target_line(
            lines,
            Some(anchor),
            mode,
        ) matches Err(x) && x.code == "TARGET_ANCHOR_NOT_FOUND"@),
{
    anchor_means_whole_lines(lines, anchor, lines.len() as int);
    if hits(lines, anchor).len() > 0 {
        assert(hits(lines, anchor)[0] < lines.len());
    }
}

/// Where the lines go: behind the last line, before the first, or right behind or before the
/// only line that the target's anchor means.
pub proof fn copied_lines_go_to_their_anchor(
    lines: Seq<Seq<char>>,
    anchor: Seq<char>,
    given: Option<Seq<char>>,
    t: int,
)
    requires
        lines.len() <= usize::MAX,
        0 <= t < lines.len(),
        trim_end(lines[t]) == trim_end(anchor),
    ensures
        target_line(lines, given, Mode::Append) == Ok::<int, CopyRefusalView>(lines.len() as int),
        target_line(lines, given, Mode::Prepend) == Ok::<int, CopyRefusalView>(0),
        target_line(lines, None, Mode::InsertAfter) matches Err(x) && x.code
            == "MISSING_TARGET_ANCHOR"@,
        target_line(lines, None, Mode::InsertBefore) matches Err(x) && x.code
            == "MISSING_TARGET_ANCHOR"@,
        (forall|i: int|
            0 <= i < lines.len() && trim_end(#[trigger] lines[i]) == trim_end(anchor) ==> i == t)
            ==> {
            &&& target_line(lines, Some(anchor), Mode::InsertAfter) == Ok::<int, CopyRefusalView>(
                t + 1,
            )
            &&& target_line(lines, Some(anchor), Mode::InsertBefore) == Ok::<int, CopyRefusalView>(t)
        },
        (exists|u: int|
            0 <= u < lines.len() && u != t && trim_end(#[trigger] lines[u]) == trim_end(anchor))
            ==> (target_line(lines, Some(anchor), Mode::InsertAfter) matches Err(x) && x.code
            == "TARGET_ANCHOR_AMBIGUOUS"@),
{
    lemma_only_hit(lines, anchor, t, t);
    if exists|u: int|
        0 <= u < lines.len() && u != t && trim_end(#[trigger] lines[u]) == trim_end(anchor) {
        let u = choose|u: int|
            0 <= u < lines.len() && u != t && trim_end(#[trigger] lines[u]) == trim_end(anchor);
        lemma_only_hit(lines, anchor, t, u);
    }
}

/// What a copy does to the target: the lines of the range of the source stand in it, all of
/// them, at the line they go to, and nothing else changes. A copy into the middle of its own
/// range is refused, and no other.
pub proof fn copy_puts_the_range_in_place(
    call: CopyCall,
    src: String,
    tgt: String,
    same_file: bool,
    s: int,
    e: int,
    at: int,
)
    requires
        ({
            let from = counted_lines(lf_view(src@));
            let to = counted_lines(lf_view(tgt@));
            &&& source_range(from, call.source_start@, opt_text(call.source_end)) == Ok::<
                (int, int),
                CopyRefusalView,
            >((s, e))
            &&& target_line(to, opt_text(call.target_anchor), call.mode) == Ok::<
                int,
                CopyRefusalView,
            >(at)
            &&& 0 <= s <= e < from.len()
            &&& 0 <= at <= to.len()
            &&& forall|i: int| s <= i <= e ==> plain_line(#[trigger] from[i])
        }),
    ensures
        ({
            let from = counted_lines(lf_view(src@));
            let to = counted_lines(lf_view(tgt@));
            let r = copy_outcome(call, FileRead::Text(src), FileRead::Text(tgt), same_file);
            &&& same_file && s < at <= e ==> (r matches Err(x) && x.code == "INSERT_INSIDE_RANGE"@)
            &&& !(same_file && s < at <= e) ==> r is Ok
            &&& r matches Ok(v) ==> {
                &&& v.copied == e - s + 1
                &&& v.range == (s + 1, e + 1)
                &&& v.insert_at == at
                &&& v.mode == call.mode
                &&& counted_lines(lf_view(v.content)) == to.take(at) + from.subrange(s, e + 1)
                    + to.skip(at)
            }
        }),
{
    let from = counted_lines(lf_view(src@));
    let part = from.subrange(s, e + 1);
    assert forall|i: int| 0 <= i < part.len() implies plain_line(#[trigger] part[i]) by {
        assert(part[i] == from[s + i]);
    }
    crate::copy_range::copied_lines_land_in_place(tgt@, at, part);
}

/// A file that cannot be read is no source and no target of a copy.
pub proof fn copy_needs_both_files(call: CopyCall, source: FileRead, target: FileRead, same_file: bool)
    ensures
        !(source is Text) ==> (copy_outcome(call, source, target, same_file) matches Err(x) && x.code
            == "SOURCE_READ_ERROR"@),
        copy_outcome(call, source, target, same_file) is Ok ==> source is Text && target is Text,
{
}

/// The four modes of a copy have their own names, and no other name is one; a copy needs its
/// source, its first line and its target, and appends where it names no mode.
pub proof fn copy_modes_have_names(args: Json, m: Mode, name: Seq<char>)
    ensures
        mode_named(mode_name(m)) == Some(m),
        mode_named(name) matches Some(k) ==> mode_name(k) == name,
        ({
            let needed = str_at(args, "source_path"@) is Some && str_at(args, "source_start"@) is Some
                && str_at(args, "target_path"@) is Some;
            &&& !needed ==> (copy_args_error(args) matches Some(x) && x.code == "MISSING_ARGUMENT"@)
            &&& needed && str_at(args, "mode"@) is None ==> copy_args_error(args) is None
            &&& needed ==> (str_at(args, "mode"@) matches Some(n) ==> (mode_named(n) is Some
                <==> copy_args_error(args) is None))
        }),
{
    reveal_strlit("insert_after");
    reveal_strlit("insert_before");
    reveal_strlit("append");
    reveal_strlit("prepend");
    assert("insert_after"@.len() == 12 && "insert_before"@.len() == 13);
    assert("append"@.len() == 6 && "prepend"@.len() == 7);
}

/// Of the lines that an ambiguous anchor means the first five are named, counted from 1.
pub proof fn first_five_lines_are_named(found: Seq<usize>, i: int)
    requires
        0 <= i < found.len(),
        found[i] < usize::MAX,
    ensures
        found.len() <= 5 ==> first_five(found).len() == found.len(),
        found.len() > 5 ==> first_five(found).len() == 5,
        i < 5 ==> first_five(found)[i] == found[i] + 1,
{
}

} // verus!
