//! What holds of every read of files.

use vstd::prelude::*;

use crate::file_cache::{entry_for, short_hash, CachedView};
use crate::file_query::{
    answer_at, batch_error, chars_upto, content_answer, ledger_after, ledger_after_all,
    line_wanted, one_answer, placed_range, total_of, Probe, ReadItem,
};
use crate::file_shared::{hash_of, is_binary_error, lf_view};
use crate::format::dec;
use crate::json::{member, opt_text, Json};
use crate::ledger::{carried, LedgerView, LineShift};
use crate::lines::{join, lemma_split_nonempty, nl, split_nl};
use crate::numbered::{cost, lemma_reach_bounds, listing, reach};

verus! {

/// Whether both lines of a range are given in order and the range is no longer than a read
/// may ask for; a range with an open end is always in order.
pub open spec fn in_order(start: Option<usize>, end: Option<usize>) -> bool {
    match (start, end) {
        (Some(s), Some(e)) => s <= e && e - s < 400,
        _ => true,
    }
}

/// The numbered lines `first` to `last` of a text, counted from 1, one to a line.
pub open spec fn shown_lines(content: Seq<char>, first: int, last: int) -> Seq<char> {
    join(
        Seq::new(
            (last - first + 1) as nat,
            |k: int| "L"@ + dec((first + k) as nat) + ": "@ + split_nl(content)[first + k - 1],
        ),
        nl(),
    )
}

proof fn lemma_shown_lines(content: Seq<char>, first: int, last: int)
    requires
        first >= 1,
    ensures
        shown_lines(content, first, last) == listing(split_nl(content), first - 1, last),
{
    assert(Seq::new(
        (last - first + 1) as nat,
        |k: int| "L"@ + dec((first + k) as nat) + ": "@ + split_nl(content)[first + k - 1],
    ) =~= Seq::new(
        (last - (first - 1)) as nat,
        |k: int| crate::numbered::numbered_line(split_nl(content), first - 1 + k),
    ));
}

/// A read says "not modified" exactly when the fingerprint that the caller sent is that of
/// the file's current text. With any other, or with none, an answer holds the numbered
/// lines of the current text and its fingerprint.
pub proof fn not_modified_needs_the_current_hash(
    shifts: Map<Seq<char>, Seq<Seq<LineShift>>>,
    item: ReadItem,
    raw: String,
)
    requires
        item.probe == Probe::Text(raw),
        item.path@.len() > 0,
        in_order(item.start, item.end),
    ensures
        ({
            let content = lf_view(raw@);
            let answer = one_answer(shifts, item);
            &&& opt_text(item.if_hash) == Some(hash_of(content)) ==> (answer matches Ok(v)
                && v.not_modified)
            &&& opt_text(item.if_hash) != Some(hash_of(content)) ==> (answer matches Ok(v) ==> {
                &&& !v.not_modified
                &&& v.text == shown_lines(content, v.start_line, v.end_line)
                &&& 1 <= v.start_line <= v.end_line + 1
                &&& v.end_line <= v.total_lines
            })
            &&& answer matches Ok(v) ==> {
                &&& v.hash == hash_of(content)
                &&& v.path == item.path@
                &&& v.total_lines == total_of(content)
            }
        }),
{
    let content = lf_view(raw@);
    lemma_split_nonempty(content);
    let total = total_of(content);
    lemma_reach_bounds(split_nl(content), 0, total, 24_000);
    if opt_text(item.if_hash) != Some(hash_of(content)) {
        if let Ok(v) = one_answer(shifts, item) {
            lemma_shown_lines(content, v.start_line, v.end_line);
            lemma_range_in_order(shifts, item.path@, item.start, item.end);
        }
    }
}

proof fn lemma_range_in_order(
    shifts: Map<Seq<char>, Seq<Seq<LineShift>>>,
    path: Seq<char>,
    start: Option<usize>,
    end: Option<usize>,
)
    requires
        in_order(start, end),
    ensures
        ({
            let p = placed_range(shifts, path, start, end);
            p.0 is Some && p.1 is Some ==> p.0->0 <= p.1->0
        }),
{
}

/// What cannot be read as text is refused, whatever is asked for and whatever fingerprint
/// the caller has.
pub proof fn only_text_is_shown(shifts: Map<Seq<char>, Seq<Seq<LineShift>>>, item: ReadItem)
    ensures
        one_answer(shifts, item) is Ok ==> item.path@.len() > 0 && item.probe is Text && in_order(
            item.start,
            item.end,
        ),
        item.path@.len() > 0 && item.probe is Managed ==> (one_answer(shifts, item) matches Err(e)
            && e.code == "USE_SKILLS_TOOL"@),
        item.path@.len() > 0 && item.probe is Directory ==> (one_answer(shifts, item) matches Err(e)
            && e.code == "IS_DIRECTORY"@),
        item.path@.len() > 0 && item.probe is Failed && in_order(item.start, item.end) ==> (
        one_answer(shifts, item) matches Err(e) && (e.code == "BINARY_FILE"@ || e.code
            == "NOT_FOUND"@)),
{
}

/// The lines that a read shows when nothing is recorded of the file: those that are asked
/// for, as far as the file goes; from the first line, as far as an answer goes, when none
/// are. What is left is where a next read goes on.
pub proof fn read_shows_what_was_asked_for(
    shifts: Map<Seq<char>, Seq<Seq<LineShift>>>,
    path: Seq<char>,
    start: Option<usize>,
    end: Option<usize>,
    content: Seq<char>,
)
    requires
        !shifts.contains_key(path),
        in_order(start, end),
    ensures
        ({
            let total = total_of(content);
            let answer = content_answer(shifts, path, start, end, content);
            let first = if start is Some && start->0 >= 1 {
                start->0 as int
            } else {
                1
            };
            &&& first > total ==> (answer matches Err(e) && e.code == "LINE_OUT_OF_RANGE"@
                && e.total_lines == Some(total as usize) && e.hash == Some(hash_of(content)))
            &&& answer matches Ok(v) ==> {
                &&& v.start_line == first
                &&& end matches Some(e) ==> v.end_line == (if e <= total {
                    e as int
                } else {
                    total
                })
                &&& start is Some && end is None ==> v.end_line == total
                &&& v.end_line < total ==> v.next_line == Some(v.end_line + 1)
                &&& v.end_line == total ==> v.next_line is None
                &&& v.correction is None
                &&& v.total_lines == total
                &&& !v.not_modified
            }
        }),
{
    let total = total_of(content);
    lemma_split_nonempty(content);
    lemma_reach_bounds(split_nl(content), 0, total, 24_000);
}

/// A range that fits an answer is shown and one that does not is refused: an explicit one
/// of up to 600 lines and 24000 characters fits, and without a range a read always fits.
pub proof fn what_fits_is_shown(
    shifts: Map<Seq<char>, Seq<Seq<LineShift>>>,
    path: Seq<char>,
    start: Option<usize>,
    end: Option<usize>,
    content: Seq<char>,
)
    requires
        !shifts.contains_key(path),
        in_order(start, end),
        start matches Some(s) ==> 1 <= s <= total_of(content),
        end matches Some(e) ==> 1 <= e,
    ensures
        start is None && end is None ==> content_answer(shifts, path, start, end, content) is Ok,
        ({
            let first = if start is Some {
                start->0 as int
            } else {
                1
            };
            let last = if end is Some && end->0 <= total_of(content) {
                end->0 as int
            } else {
                total_of(content)
            };
            let answer = content_answer(shifts, path, start, end, content);
            start is Some || end is Some ==> {
                &&& answer is Ok <==> last - first < 600 && shown_lines(content, first, last).len()
                    <= 24000
                &&& answer matches Err(e) ==> e.code == "RANGE_TOO_LARGE"@
            }
        }),
{
    lemma_split_nonempty(content);
    let first = if start is Some {
        start->0 as int
    } else {
        1
    };
    let last = if end is Some && end->0 <= total_of(content) {
        end->0 as int
    } else {
        total_of(content)
    };
    lemma_total(content);
    lemma_shown_lines(content, first, last);
}

proof fn lemma_total(content: Seq<char>)
    ensures
        total_of(content) >= 1,
{
    lemma_split_nonempty(content);
    if content.len() > 0 {
        lemma_split_nonempty(content.drop_last());
    }
}

/// A read counts one line for each newline, and one for what stands behind the last; an
/// empty text has one line.
pub proof fn lines_of_a_read_are_counted(content: Seq<char>)
    ensures
        content.len() == 0 ==> total_of(content) == 1,
        content.len() > 0 ==> total_of(content) == content.filter(|c: char| c == '\n').len() + (
        if content.last() == '\n' {
            0int
        } else {
            1
        }),
{
    crate::laws::text::newlines_separate_lines(content);
    reveal(Seq::filter);
}

/// A range of which both ends have moved equally since they were shown is read where it is
/// now, and the answer says so; one whose ends have not moved is read where it was.
pub proof fn moved_range_is_followed(
    shifts: Map<Seq<char>, Seq<Seq<LineShift>>>,
    path: Seq<char>,
    s: usize,
    e: usize,
    d: int,
)
    requires
        shifts.contains_key(path),
        carried(shifts[path], s as int) == d,
        carried(shifts[path], e as int) == d,
        1 <= s <= e,
        1 <= s + d,
        e + d <= usize::MAX,
    ensures
        d != 0 ==> placed_range(shifts, path, Some(s), Some(e)) == (
            Some(s + d),
            Some(e + d),
            Some((s as int, e as int, d)),
        ),
        d == 0 ==> placed_range(shifts, path, Some(s), Some(e)) == (
            Some(s as int),
            Some(e as int),
            None::<(int, int, int)>,
        ),
{
}

/// A range whose ends have moved by different numbers, or that has an open end, is read as
/// it was asked for.
pub proof fn torn_range_is_not_followed(
    shifts: Map<Seq<char>, Seq<Seq<LineShift>>>,
    path: Seq<char>,
    start: Option<usize>,
    end: Option<usize>,
)
    requires
        start is None || end is None || !shifts.contains_key(path) || carried(
            shifts[path],
            start->0 as int,
        ) != carried(shifts[path], end->0 as int),
    ensures
        ({
            let p = placed_range(shifts, path, start, end);
            &&& p.2 is None
            &&& start matches Some(s) ==> p.0 == Some(s as int)
            &&& end matches Some(e) ==> p.1 == Some(e as int)
            &&& start is None ==> p.0 is None
            &&& end is None ==> p.1 is None
        }),
{
}

/// A read without a range goes as far as its budget of characters does, counting eight for
/// each number, and no further.
pub proof fn unasked_read_goes_as_far_as_it_may(lines: Seq<Seq<char>>, to: int, cap: nat)
    requires
        0 <= to <= lines.len(),
    ensures
        ({
            let n = reach(lines, 0, to, cap);
            &&& 0 <= n <= to
            &&& n > 0 ==> cost(lines, 0, n) <= cap
            &&& n < to ==> cost(lines, 0, n + 1) > cap
        }),
    decreases to,
{
    if to > 0 && cost(lines, 0, to) > cap {
        unasked_read_goes_as_far_as_it_may(lines, to - 1, cap);
    }
}

/// What a line is taken to need: its characters and eight more.
pub proof fn lines_cost_their_characters(lines: Seq<Seq<char>>, to: int)
    requires
        0 <= to < lines.len(),
    ensures
        cost(lines, 0, 0) == 0,
        cost(lines, 0, to + 1) == cost(lines, 0, to) + lines[to].len() + 8,
{
}

/// A line number is read as it is given; 0 counts as the first line.
pub proof fn line_numbers_are_read_as_given(args: Json, key: Seq<char>, n: u64)
    requires
        member(args, key) == Some(Json::Uint(n)),
        n <= usize::MAX,
    ensures
        n > 0 ==> (line_wanted(args, key) matches Some(k) && k == n),
        n == 0 ==> line_wanted(args, key) == Some(1usize),
{
}

/// Without a number there is no line.
pub proof fn no_number_is_no_line(args: Json, key: Seq<char>)
    requires
        member(args, key) matches Some(v) ==> !(v is Uint),
    ensures
        line_wanted(args, key) is None,
{
}

/// A call for several files is answered whole or not at all: it is answered exactly when
/// every file of it is and the texts are no longer together than a call may answer.
pub proof fn batch_is_answered_whole(l: LedgerView, items: Seq<ReadItem>, n: int)
    requires
        0 <= n <= items.len(),
    ensures
        batch_error(l, items, n) is None <==> (forall|i: int|
            0 <= i < n ==> #[trigger] answer_at(l, items, i) is Ok) && chars_upto(l, items, n)
            <= 48_000,
        batch_error(l, items, n) matches Some(e) ==> {
            &&& 1 <= e.0 <= n
            &&& batch_error(l, items, e.0 - 1) is None
            &&& answer_at(l, items, e.0 - 1) matches Err(why) ==> e.1 == why
            &&& answer_at(l, items, e.0 - 1) is Ok ==> e.1.code == "RANGE_TOO_LARGE"@
        },
    decreases n,
{
    if n > 0 {
        batch_is_answered_whole(l, items, n - 1);
        assert(chars_upto(l, items, n - 1) <= chars_upto(l, items, n));
    }
}

/// The texts of a call add up.
pub proof fn batch_counts_every_text(l: LedgerView, items: Seq<ReadItem>, n: int)
    requires
        0 <= n < items.len(),
    ensures
        chars_upto(l, items, 0) == 0,
        answer_at(l, items, n) matches Ok(v) ==> chars_upto(l, items, n + 1) == chars_upto(
            l,
            items,
            n,
        ) + v.text.len(),
        answer_at(l, items, n) == one_answer(ledger_after_all(l, items, n).shifts, items[n]),
        ledger_after_all(l, items, 0) == l,
        ledger_after_all(l, items, n + 1) == ledger_after(ledger_after_all(l, items, n), items[n]),
{
}

/// A file that is shown is recorded with its fingerprint and its number of lines, and its
/// lines count anew from there; an answer without lines, or a refusal, leaves the ledger as
/// it was.
pub proof fn shown_file_is_recorded(l: LedgerView, item: ReadItem)
    ensures
        ({
            let next = ledger_after(l, item);
            &&& one_answer(l.shifts, item) is Err ==> next == l
            &&& one_answer(l.shifts, item) matches Ok(v) ==> {
                &&& v.not_modified ==> next == l
                &&& !v.not_modified ==> {
                    &&& next.queue.len() == l.queue.len() + 1
                    &&& next.queue.drop_last() == l.queue
                    &&& next.queue.last().path == v.path
                    &&& next.queue.last().op == "read"@
                    &&& next.queue.last().line_count == v.total_lines
                    &&& next.queue.last().hash == Some(v.hash)
                    &&& !next.shifts.contains_key(v.path)
                    &&& forall|p: Seq<char>|
                        p != v.path && l.shifts.contains_key(p) ==> next.shifts.contains_key(p)
                            && #[trigger] next.shifts[p] == l.shifts[p]
                    &&& next.files.len() > 0
                    &&& next.files.last() == next.queue.last()
                }
            }
        }),
{
    if let Ok(v) = one_answer(l.shifts, item) {
        if !v.not_modified {
            assert(ledger_after(l, item).queue.drop_last() =~= l.queue);
        }
    }
}

/// A file that is shown is remembered with its number of lines, so that it need not be sent
/// again.
pub proof fn shown_file_is_remembered(l: LedgerView, item: ReadItem, raw: String)
    requires
        item.probe == Probe::Text(raw),
    ensures
        one_answer(l.shifts, item) matches Ok(v) ==> (!v.not_modified ==> (entry_for(
            ledger_after(l, item).cache.entries,
            v.path,
        ) matches Some(e) && e.line_count as int == v.total_lines as usize as int && e.hash
            == short_hash(lf_view(raw@)))),
{
    if let Ok(v) = one_answer(l.shifts, item) {
        if !v.not_modified {
            crate::file_cache::stored_file_is_found(
                l.cache.entries,
                CachedView {
                    path: v.path,
                    hash: short_hash(lf_view(raw@)),
                    line_count: v.total_lines as usize,
                },
            );
        }
    }
}

/// The fingerprint of a text is the hexadecimal form of the digest of its bytes.
pub proof fn fingerprint_is_the_digest_of_the_bytes(content: Seq<char>)
    ensures
        hash_of(content) == crate::outside::hex_text(
            crate::outside::sha256_digest(vstd::utf8::encode_utf8(content)),
        ),
{
}

/// A file that can be read as text, and whose fingerprint the caller does not have, is answered
/// by its lines; one that cannot is a binary file where the error says so, and else not there.
pub proof fn readable_file_is_answered_by_its_lines(
    shifts: Map<Seq<char>, Seq<Seq<LineShift>>>,
    item: ReadItem,
)
    requires
        item.path@.len() > 0,
        in_order(item.start, item.end),
    ensures
        item.probe matches Probe::Text(raw) ==> (opt_text(item.if_hash) != Some(
            hash_of(lf_view(raw@)),
        ) ==> one_answer(shifts, item) == content_answer(
            shifts,
            item.path@,
            item.start,
            item.end,
            lf_view(raw@),
        )),
        item.probe matches Probe::Failed(e) ==> {
            &&& is_binary_error(e@) ==> (one_answer(shifts, item) matches Err(r) && r.code
                == "BINARY_FILE"@)
            &&& !is_binary_error(e@) ==> (one_answer(shifts, item) matches Err(r) && r.code
                == "NOT_FOUND"@)
        },
{
}

/// A range in the wrong order, or of more than 400 lines, is refused whatever the file holds.
pub proof fn bad_ranges_are_refused(
    shifts: Map<Seq<char>, Seq<Seq<LineShift>>>,
    item: ReadItem,
)
    requires
        item.path@.len() > 0,
        item.probe is Text || item.probe is Failed,
        !in_order(item.start, item.end),
    ensures
        one_answer(shifts, item) is Err,
        item.end->0 - item.start->0 >= 400 ==> (one_answer(shifts, item) matches Err(r) && r.code
            == "RANGE_TOO_LARGE"@),
{
}

} // verus!
