//! Reading a child's output: what is kept of it, how it is shown as it comes, and
//! when the reading ends.

use vstd::prelude::*;
use vstd::utf8::{
    decode_utf8, decode_utf8_encode_utf8, encode_utf8, partial_valid_partial_invalid_utf8, valid_utf8,
};

use crate::format::lemma_encode_concat;
use crate::json::texts;
use crate::outside::{extendable, longest_valid, malformed_len, utf8_fault, utf8_text};

verus! {

/// How long the reader sleeps when there is nothing to read, in milliseconds.
pub const READER_POLL_TICK: u64 = 50;

/// How long the reader goes on after the child has ended, in milliseconds.
pub const READER_SETTLE_BUDGET: u64 = 300;

/// How long the end of a run waits for its readers, in milliseconds.
pub const SEAL_JOIN_BUDGET: u64 = 500;

/// How many bytes of a start are valid UTF-8, as many as possible.
pub open spec fn valid_len(p: Seq<u8>) -> int {
    choose|v: int| longest_valid(p, v)
}

/// There is a longest valid start, and only one.
pub proof fn lemma_valid_len(p: Seq<u8>)
    ensures
        longest_valid(p, valid_len(p)),
        forall|v: int| longest_valid(p, v) ==> v == valid_len(p),
{
    lemma_some_valid_len(p, p.len() as int);
    let w = valid_len(p);
    assert forall|v: int| longest_valid(p, v) implies v == w by {
        if v < w {
            assert(!valid_utf8(p.take(w)));
        }
        if w < v {
            assert(!valid_utf8(p.take(v)));
        }
    }
}

proof fn lemma_some_valid_len(p: Seq<u8>, k: int)
    requires
        0 <= k <= p.len(),
        forall|i: int| k < i <= p.len() ==> !valid_utf8(#[trigger] p.take(i)),
    ensures
        exists|v: int| longest_valid(p, v),
    decreases k,
{
    if valid_utf8(p.take(k)) {
        assert(longest_valid(p, k));
    } else if k > 0 {
        lemma_some_valid_len(p, k - 1);
    } else {
        assert(p.take(0).len() == 0);
        assert(valid_utf8(p.take(0)));
    }
}

/// What is shown of the bytes at hand, and the bytes that wait for the next read:
/// each stretch of whole characters is shown as one piece, a malformed sequence as a
/// replacement character, and a character that may still be completed waits.
pub open spec fn forwarded(p: Seq<u8>) -> (Seq<Seq<char>>, Seq<u8>)
    decreases p.len(),
{
    let v = valid_len(p);
    if p.len() == 0 {
        (Seq::empty(), p)
    } else if 0 < v <= p.len() {
        let r = forwarded(p.skip(v));
        (seq![decode_utf8(p.take(v))] + r.0, r.1)
    } else if !extendable(p) && 0 < malformed_len(p) <= p.len() {
        let r = forwarded(p.skip(malformed_len(p) as int));
        (seq![seq!['\u{fffd}']] + r.0, r.1)
    } else {
        (Seq::empty(), p)
    }
}

fn take_front(p: &mut Vec<u8>, k: usize) -> (front: Vec<u8>)
    requires
        k <= old(p)@.len(),
    ensures
        front@ == old(p)@.take(k as int),
        final(p)@ == old(p)@.skip(k as int),
{
    let mut rest: Vec<u8> = p.split_off(k);
    std::mem::swap(&mut rest, p);
    proof {
        assert(rest@ =~= old(p)@.take(k as int));
        assert(p@ =~= old(p)@.skip(k as int));
    }
    rest
}

/// Adds bytes to those that wait, and hands out what can be shown now.
pub fn forward_progress(pending: &mut Vec<u8>, bytes: &[u8]) -> (chunks: Vec<String>)
    ensures
        texts(chunks@) == forwarded(old(pending)@ + bytes@).0,
        final(pending)@ == forwarded(old(pending)@ + bytes@).1,
{
    let ghost all = pending@ + bytes@;
    pending.extend_from_slice(bytes);
    proof {
        assert(pending@ =~= all);
    }
    let mut chunks: Vec<String> = Vec::new();
    proof {
        assert(texts(chunks@) =~= Seq::<Seq<char>>::empty());
        assert(texts(chunks@) + forwarded(all).0 =~= forwarded(all).0);
    }
    while pending.len() > 0
        invariant
            all == old(pending)@ + bytes@,
            forwarded(all).0 == texts(chunks@) + forwarded(pending@).0,
            forwarded(all).1 == forwarded(pending@).1,
        decreases pending@.len(),
    {
        let ghost p = pending@;
        let ghost before = chunks@;
        let n: usize = pending.len();
        proof {
            lemma_valid_len(p);
            assert(p.take(n as int) =~= p);
        }
        let (whole, bad): (usize, Option<usize>) = match utf8_fault(pending.as_slice()) {
            None => {
                proof {
                    assert(longest_valid(p, n as int));
                }
                (n, None)
            },
            Some((v, e)) => (v, e),
        };
        proof {
            assert(whole == valid_len(p));
        }
        if whole > 0 {
            let front: Vec<u8> = take_front(pending, whole);
            chunks.push(utf8_text(front));
            proof {
                let r = forwarded(p.skip(whole as int));
                assert(texts(chunks@) =~= texts(before).push(decode_utf8(p.take(whole as int))));
                assert(texts(chunks@) + r.0 =~= texts(before) + (seq![
                    decode_utf8(p.take(whole as int)),
                ] + r.0));
            }
        } else {
            proof {
                assert(p.skip(0) =~= p);
            }
            match bad {
                Some(k) => {
                    let _ = take_front(pending, k);
                    chunks.push("\u{fffd}".to_owned());
                    proof {
                        reveal_strlit("\u{fffd}");
                        assert("\u{fffd}"@ =~= seq!['\u{fffd}']);
                        let r = forwarded(p.skip(k as int));
                        assert(texts(chunks@) =~= texts(before).push(seq!['\u{fffd}']));
                        assert(texts(chunks@) + r.0 =~= texts(before) + (seq![seq!['\u{fffd}']]
                            + r.0));
                    }
                },
                None => {
                    proof {
                        assert(texts(chunks@) + forwarded(p).0 =~= texts(chunks@));
                    }
                    return chunks;
                },
            }
        }
    }
    proof {
        assert(texts(chunks@) + forwarded(pending@).0 =~= texts(chunks@));
    }
    chunks
}

/// What a look at the pipe, or a read from it, gave.
#[derive(Debug, PartialEq, Eq)]
pub enum PipeEvent {
    /// Nothing to read for now.
    Idle,
    /// The pipe is closed, or reading it fails.
    Closed,
    /// The end of the output.
    Eof,
    /// Bytes.
    Data(Vec<u8>),
}

/// What the reader does next.
#[derive(Debug, Clone, Copy, PartialEq, Eq, Structural)]
pub enum PumpNext {
    /// Reads again.
    Read,
    /// Sleeps one tick, then reads again.
    Sleep,
    /// Ends.
    Stop,
}

/// A reader of one pipe.
#[derive(Debug, PartialEq, Eq)]
pub struct Pump {
    /// How many bytes are kept at most.
    pub max_bytes: usize,
    pub captured: usize,
    /// Whether bytes were left out.
    pub capped: bool,
    pub saw_eof: bool,
    /// Bytes of a character that is not complete yet.
    pub pending: Vec<u8>,
    /// When the child was first seen to have ended.
    pub exit_seen: Option<u64>,
}

/// What a reader holds.
#[verifier::ext_equal]
pub struct PumpView {
    pub max_bytes: usize,
    pub captured: usize,
    pub capped: bool,
    pub saw_eof: bool,
    pub pending: Seq<u8>,
    pub exit_seen: Option<u64>,
}

impl View for Pump {
    type V = PumpView;

    open spec fn view(&self) -> PumpView {
        PumpView {
            max_bytes: self.max_bytes,
            captured: self.captured,
            capped: self.capped,
            saw_eof: self.saw_eof,
            pending: self.pending@,
            exit_seen: self.exit_seen,
        }
    }
}

/// When the child was first seen to have ended, seen from `now`.
pub open spec fn seen_at(exit_seen: Option<u64>, running: bool, now: u64) -> Option<u64> {
    if running {
        None
    } else {
        match exit_seen {
            Some(t) => Some(t),
            None => Some(now),
        }
    }
}

/// Whether the child ended long enough ago.
pub open spec fn settled(exit_seen: Option<u64>, now: u64) -> bool {
    exit_seen matches Some(t) && now - t >= READER_SETTLE_BUDGET
}

/// Notes whether the child still runs; tells whether it ended long enough ago.
pub fn child_settled(exit_seen: &mut Option<u64>, running: bool, now: u64) -> (r: bool)
    ensures
        *final(exit_seen) == seen_at(*old(exit_seen), running, now),
        r == settled(*final(exit_seen), now),
{
    if running {
        *exit_seen = None;
        return false;
    }
    let seen: u64 = match *exit_seen {
        Some(t) => t,
        None => now,
    };
    *exit_seen = Some(seen);
    now >= seen && now - seen >= READER_SETTLE_BUDGET
}

/// How many of `n` more bytes are kept.
pub open spec fn retained(p: PumpView, n: int) -> int {
    let room = if p.captured <= p.max_bytes {
        p.max_bytes - p.captured
    } else {
        0
    };
    if n < room {
        n
    } else {
        room
    }
}

/// A reader after an event, what it shows, and what it does next. It ends at the end
/// of the output, when the pipe is closed, when bytes come that it has no room for, and
/// a while after the child has ended, whoever else may hold the pipe open.
pub open spec fn pump_step(
    p: PumpView,
    event: PipeEvent,
    running: bool,
    now: u64,
) -> (PumpView, Seq<Seq<char>>, PumpNext) {
    match event {
        PipeEvent::Closed => (p, Seq::empty(), PumpNext::Stop),
        PipeEvent::Eof => (PumpView { saw_eof: true, ..p }, Seq::empty(), PumpNext::Stop),
        PipeEvent::Idle => {
            let q = PumpView { exit_seen: seen_at(p.exit_seen, running, now), ..p };
            (
                q,
                Seq::empty(),
                if settled(q.exit_seen, now) {
                    PumpNext::Stop
                } else {
                    PumpNext::Sleep
                },
            )
        },
        PipeEvent::Data(bytes) => {
            let k = retained(p, bytes@.len() as int);
            let shown = if k > 0 {
                forwarded(p.pending + bytes@.take(k))
            } else {
                (Seq::empty(), p.pending)
            };
            let q = PumpView {
                captured: (p.captured + k) as usize,
                capped: p.capped || k < bytes@.len(),
                pending: shown.1,
                exit_seen: seen_at(p.exit_seen, running, now),
                ..p
            };
            (
                q,
                shown.0,
                if q.capped || settled(q.exit_seen, now) {
                    PumpNext::Stop
                } else {
                    PumpNext::Read
                },
            )
        },
    }
}

/// What a reader shows when it ends: a replacement character for a character that
/// was never completed.
pub open spec fn pump_end(p: PumpView) -> Seq<Seq<char>> {
    if p.pending.len() > 0 {
        seq![seq!['\u{fffd}']]
    } else {
        Seq::empty()
    }
}

impl Pump {
    /// A reader that keeps at most `max_bytes`.
    pub fn new(max_bytes: usize) -> (p: Self)
        ensures
            p@ == (PumpView {
                max_bytes,
                captured: 0,
                capped: false,
                saw_eof: false,
                pending: Seq::empty(),
                exit_seen: None,
            }),
    {
        Pump {
            max_bytes,
            captured: 0,
            capped: false,
            saw_eof: false,
            pending: Vec::new(),
            exit_seen: None,
        }
    }

    /// Takes an event: gives what is shown and what comes next.
    pub fn step(&mut self, event: PipeEvent, running: bool, now: u64) -> (r: (
        Vec<String>,
        PumpNext,
    ))
        ensures
            final(self)@ == pump_step(old(self)@, event, running, now).0,
            texts(r.0@) == pump_step(old(self)@, event, running, now).1,
            r.1 == pump_step(old(self)@, event, running, now).2,
    {
        let mut chunks: Vec<String> = Vec::new();
        proof {
            assert(texts(chunks@) =~= Seq::<Seq<char>>::empty());
        }
        match event {
            PipeEvent::Closed => (chunks, PumpNext::Stop),
            PipeEvent::Eof => {
                self.saw_eof = true;
                (chunks, PumpNext::Stop)
            },
            PipeEvent::Idle => {
                if child_settled(&mut self.exit_seen, running, now) {
                    (chunks, PumpNext::Stop)
                } else {
                    (chunks, PumpNext::Sleep)
                }
            },
            PipeEvent::Data(mut bytes) => {
                let n: usize = bytes.len();
                let room: usize = if self.captured <= self.max_bytes {
                    self.max_bytes - self.captured
                } else {
                    0
                };
                let k: usize = if n < room {
                    n
                } else {
                    room
                };
                let ghost given = bytes@;
                if k > 0 {
                    let kept: Vec<u8> = take_front(&mut bytes, k);
                    chunks = forward_progress(&mut self.pending, kept.as_slice());
                    self.captured = self.captured + k;
                }
                if k < n {
                    self.capped = true;
                }
                let over: bool = child_settled(&mut self.exit_seen, running, now);
                if over || self.capped {
                    (chunks, PumpNext::Stop)
                } else {
                    (chunks, PumpNext::Read)
                }
            },
        }
    }

    /// Ends the reading: gives what is shown last, whether the end of the output was
    /// seen, and whether bytes were left out.
    pub fn finish(self) -> (r: (Vec<String>, bool, bool))
        ensures
            texts(r.0@) == pump_end(self@),
            r.1 == self.saw_eof,
            r.2 == self.capped,
    {
        let mut chunks: Vec<String> = Vec::new();
        if self.pending.len() > 0 {
            chunks.push("\u{fffd}".to_owned());
            proof {
                reveal_strlit("\u{fffd}");
                assert("\u{fffd}"@ =~= seq!['\u{fffd}']);
            }
        }
        proof {
            assert(texts(chunks@) =~= pump_end(self@));
        }
        (chunks, self.saw_eof, self.capped)
    }
}

/// All pieces in one text.
pub open spec fn joined(pieces: Seq<Seq<char>>) -> Seq<char>
    decreases pieces.len(),
{
    if pieces.len() == 0 {
        Seq::empty()
    } else {
        pieces[0] + joined(pieces.skip(1))
    }
}

proof fn lemma_joined_concat(a: Seq<Seq<char>>, b: Seq<Seq<char>>)
    ensures
        joined(a + b) == joined(a) + joined(b),
    decreases a.len(),
{
    if a.len() == 0 {
        assert(a + b =~= b);
        assert(joined(a) + joined(b) =~= joined(b));
    } else {
        lemma_joined_concat(a.skip(1), b);
        assert((a + b).skip(1) =~= a.skip(1) + b);
        assert(joined(a + b) =~= joined(a) + joined(b));
    }
}

/// Output that is cut anywhere by the reads, even inside a character, is shown
/// unharmed: what is shown and what waits make up the bytes so far, and what waits
/// goes on with the bytes to come.
pub proof fn split_characters_stay_whole(p: Seq<u8>, more: Seq<u8>)
    requires
        valid_utf8(p + more),
    ensures
        encode_utf8(joined(forwarded(p).0)) + forwarded(p).1 == p,
        valid_utf8(forwarded(p).1 + more),
        forwarded(p).1.len() > 0 ==> !valid_utf8(forwarded(p).1),
    decreases p.len(),
{
    lemma_valid_len(p);
    let v = valid_len(p);
    if p.len() == 0 {
        assert(encode_utf8(joined(forwarded(p).0)) + forwarded(p).1 =~= p);
    } else if v > 0 {
        let all = p + more;
        let rest = p.skip(v);
        assert(all.subrange(0, v) =~= p.take(v));
        assert(all.subrange(v, all.len() as int) =~= rest + more);
        if !valid_utf8(rest + more) {
            partial_valid_partial_invalid_utf8(all, v);
        }
        split_characters_stay_whole(rest, more);
        let r = forwarded(rest);
        let first = decode_utf8(p.take(v));
        decode_utf8_encode_utf8(p.take(v));
        assert((seq![first] + r.0).skip(1) =~= r.0);
        lemma_encode_concat(first, joined(r.0));
        assert(encode_utf8(joined(forwarded(p).0)) + forwarded(p).1 =~= p.take(v) + (encode_utf8(
            joined(r.0),
        ) + r.1));
        assert(p.take(v) + rest =~= p);
    } else {
        assert(extendable(p));
        assert(encode_utf8(joined(forwarded(p).0)) + forwarded(p).1 =~= p);
        if valid_utf8(p) {
            assert(p.take(p.len() as int) =~= p);
        }
    }
}

/// All bytes of some reads.
pub open spec fn bytes_read(reads: Seq<Seq<u8>>) -> Seq<u8>
    decreases reads.len(),
{
    if reads.len() == 0 {
        Seq::empty()
    } else {
        reads[0] + bytes_read(reads.skip(1))
    }
}

/// What is shown of some reads, and what waits behind them.
pub open spec fn shown_of(waiting: Seq<u8>, reads: Seq<Seq<u8>>) -> (Seq<Seq<char>>, Seq<u8>)
    decreases reads.len(),
{
    if reads.len() == 0 {
        (Seq::empty(), waiting)
    } else {
        let first = forwarded(waiting + reads[0]);
        let r = shown_of(first.1, reads.skip(1));
        (first.0 + r.0, r.1)
    }
}

proof fn lemma_shown_of(waiting: Seq<u8>, reads: Seq<Seq<u8>>)
    requires
        valid_utf8(waiting + bytes_read(reads)),
        waiting.len() > 0 ==> !valid_utf8(waiting),
    ensures
        encode_utf8(joined(shown_of(waiting, reads).0)) == waiting + bytes_read(reads),
        shown_of(waiting, reads).1.len() == 0,
    decreases reads.len(),
{
    if reads.len() == 0 {
        assert(waiting + bytes_read(reads) =~= waiting);
        assert(waiting =~= Seq::<u8>::empty());
    } else {
        let more = bytes_read(reads.skip(1));
        let p = waiting + reads[0];
        assert(waiting + bytes_read(reads) =~= p + more);
        split_characters_stay_whole(p, more);
        let first = forwarded(p);
        lemma_shown_of(first.1, reads.skip(1));
        let r = shown_of(first.1, reads.skip(1));
        lemma_joined_concat(first.0, r.0);
        lemma_encode_concat(joined(first.0), joined(r.0));
        assert(encode_utf8(joined(first.0)) + (first.1 + more) =~= p + more);
    }
}

/// However the output is cut into reads, the text shown is the text written: nothing
/// is lost, repeated or replaced, and nothing waits at the end.
pub proof fn output_is_shown_as_written(reads: Seq<Seq<u8>>)
    requires
        valid_utf8(bytes_read(reads)),
    ensures
        encode_utf8(joined(shown_of(Seq::empty(), reads).0)) == bytes_read(reads),
        shown_of(Seq::empty(), reads).1.len() == 0,
{
    assert(Seq::<u8>::empty() + bytes_read(reads) =~= bytes_read(reads));
    lemma_shown_of(Seq::empty(), reads);
}

/// A reader never keeps more than it may; it says when it left something out, and then
/// reads no more, however much is still written.
pub proof fn capture_stays_in_its_bounds(p: PumpView, event: PipeEvent, running: bool, now: u64)
    requires
        p.captured <= p.max_bytes,
    ensures
        pump_step(p, event, running, now).0.captured <= p.max_bytes,
        p.captured <= pump_step(p, event, running, now).0.captured,
        event matches PipeEvent::Data(b) ==> (!pump_step(p, event, running, now).0.capped
            ==> pump_step(p, event, running, now).0.captured == p.captured + b@.len()),
        event matches PipeEvent::Data(b) ==> (p.captured + b@.len() > p.max_bytes
            ==> pump_step(p, event, running, now).0.capped && pump_step(p, event, running, now).2
            == PumpNext::Stop),
{
}

/// The reading always ends: once the child has been gone for a while, the next event
/// is the last, whatever it is.
pub proof fn reading_ends_after_the_child(p: PumpView, event: PipeEvent, now: u64, gone: u64)
    requires
        p.exit_seen == Some(gone),
        now - gone >= READER_SETTLE_BUDGET,
    ensures
        pump_step(p, event, false, now).2 == PumpNext::Stop,
{
}

} // verus!
