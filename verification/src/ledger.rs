//! The ledger of files: what the tools last saw or did, the changes not yet handed
//! on, and how far lines have moved since they were last shown.

use vstd::prelude::*;

use crate::file_cache::{
    invalidate, not_for, short_hash, store, with_file, CacheView, FileCache,
};
use crate::file_shared::{content_hash, hash_of, lf_view, normalize_newlines};
use crate::format::{dec, decimal_size, left_aligned, pad_left, pad_right, right_aligned};
use crate::json::{opt_text, text_eq};
use crate::keyed::Keyed;
use crate::numbered::{count_lines, line_count};

verus! {

/// The most files that a summary lists.
pub const MAX_SUMMARY_FILES: usize = 20;

/// One change of the ledger: what was done to a file, and what it held then.
#[derive(Debug, PartialEq, Eq)]
pub struct StateEntry {
    pub path: String,
    /// `read`, `edited`, `created`, `deleted` or `moved`.
    pub op: String,
    pub line_count: usize,
    /// The fingerprint of the newline view; none once the file is gone.
    pub hash: Option<String>,
}

/// What an entry says.
#[verifier::ext_equal]
pub struct EntryView {
    pub path: Seq<char>,
    pub op: Seq<char>,
    pub line_count: int,
    pub hash: Option<Seq<char>>,
}

impl View for StateEntry {
    type V = EntryView;

    open spec fn view(&self) -> EntryView {
        EntryView {
            path: self.path@,
            op: self.op@,
            line_count: self.line_count as int,
            hash: opt_text(self.hash),
        }
    }
}

/// What a list of entries says.
pub open spec fn state_views(v: Seq<StateEntry>) -> Seq<EntryView> {
    Seq::new(v.len(), |i: int| v[i]@)
}

/// Lines from `before_line` on moved by `delta`.
#[derive(Debug, Clone, Copy, PartialEq, Eq, Structural)]
pub struct LineShift {
    pub before_line: usize,
    pub delta: i64,
}

/// The moves of lines that some edits made: those of one edit all count from the text
/// before that edit.
pub struct Moves {
    all: Vec<LineShift>,
    /// Where the moves of each edit end.
    ends: Vec<usize>,
}

spec fn start_of(ends: Seq<usize>, k: int) -> int {
    if k <= 0 {
        0
    } else {
        ends[k - 1] as int
    }
}

impl View for Moves {
    type V = Seq<Seq<LineShift>>;

    closed spec fn view(&self) -> Seq<Seq<LineShift>> {
        Seq::new(
            self.ends@.len(),
            |k: int| self.all@.subrange(start_of(self.ends@, k), self.ends@[k] as int),
        )
    }
}

/// The ledger.
pub struct Ledger {
    /// The files, the one touched last at the end.
    files: Vec<StateEntry>,
    /// The changes since they were last taken.
    queue: Vec<StateEntry>,
    /// The moves of lines since a file was last shown.
    shifts: Keyed<Moves>,
    cache: FileCache,
}

/// What a ledger holds.
#[verifier::ext_equal]
pub struct LedgerView {
    pub files: Seq<EntryView>,
    pub queue: Seq<EntryView>,
    /// For each path the moves of its edits, edit by edit.
    pub shifts: Map<Seq<char>, Seq<Seq<LineShift>>>,
    pub cache: CacheView,
}

spec fn chains(m: Map<Seq<char>, Moves>) -> Map<Seq<char>, Seq<Seq<LineShift>>> {
    m.map_values(|v: Moves| v@)
}

impl View for Ledger {
    type V = LedgerView;

    closed spec fn view(&self) -> LedgerView {
        LedgerView {
            files: state_views(self.files@),
            queue: state_views(self.queue@),
            shifts: chains(self.shifts@),
            cache: self.cache@,
        }
    }
}

/// The entries for other paths.
pub open spec fn apart_from(files: Seq<EntryView>, path: Seq<char>) -> Seq<EntryView>
    decreases files.len(),
{
    if files.len() == 0 {
        Seq::<EntryView>::empty()
    } else {
        let front = apart_from(files.drop_last(), path);
        if files.last().path == path {
            front
        } else {
            front.push(files.last())
        }
    }
}

/// The files after one more change: the file moves to the end.
pub open spec fn touched(files: Seq<EntryView>, e: EntryView) -> Seq<EntryView> {
    apart_from(files, e.path).push(e)
}

/// The ledger after one more change, which is queued to be handed on.
pub open spec fn noted(l: LedgerView, e: EntryView) -> LedgerView {
    LedgerView { files: touched(l.files, e), queue: l.queue.push(e), ..l }
}

/// The last entry for a path.
pub open spec fn last_entry(files: Seq<EntryView>, path: Seq<char>) -> Option<EntryView>
    decreases files.len(),
{
    if files.len() == 0 {
        None
    } else if files.last().path == path {
        Some(files.last())
    } else {
        last_entry(files.drop_last(), path)
    }
}

/// The fingerprint that the ledger keeps of a content, whatever its line endings.
pub open spec fn canonical_hash(content: Seq<char>) -> Seq<char> {
    hash_of(lf_view(content))
}

/// What a write leaves in the ledger.
pub open spec fn after_change(op: Seq<char>, path: Seq<char>, content: Seq<char>) -> EntryView {
    EntryView {
        path,
        op,
        line_count: line_count(content) as int,
        hash: Some(canonical_hash(content)),
    }
}

/// The moves that are no moves left out.
pub open spec fn real_moves(shifts: Seq<(usize, i64)>) -> Seq<LineShift>
    decreases shifts.len(),
{
    if shifts.len() == 0 {
        Seq::<LineShift>::empty()
    } else {
        let front = real_moves(shifts.drop_last());
        if shifts.last().1 == 0 {
            front
        } else {
            front.push(LineShift { before_line: shifts.last().0, delta: shifts.last().1 })
        }
    }
}

/// The moves of some edits and of one more; an edit without moves adds nothing.
pub open spec fn with_moves(edits: Seq<Seq<LineShift>>, moves: Seq<LineShift>) -> Seq<
    Seq<LineShift>,
> {
    if moves.len() == 0 {
        edits
    } else {
        edits.push(moves)
    }
}

/// The moves recorded for a path, edit by edit.
pub open spec fn chain(l: LedgerView, path: Seq<char>) -> Seq<Seq<LineShift>> {
    if l.shifts.contains_key(path) {
        l.shifts[path]
    } else {
        Seq::<Seq<LineShift>>::empty()
    }
}

/// By how much one edit moves the line that is at `line` before it.
pub open spec fn moved_by(shifts: Seq<LineShift>, line: int) -> int
    decreases shifts.len(),
{
    if shifts.len() == 0 {
        0
    } else {
        moved_by(shifts.drop_last(), line) + (if line >= shifts.last().before_line {
            shifts.last().delta as int
        } else {
            0
        })
    }
}

/// By how much some edits, one after the other, move a line: each moves it from where
/// the edits before have left it.
pub open spec fn carried(edits: Seq<Seq<LineShift>>, line: int) -> int
    decreases edits.len(),
{
    if edits.len() == 0 {
        0
    } else {
        let d = carried(edits.drop_last(), line);
        d + moved_by(edits.last(), line + d)
    }
}

/// A line number brought into the range of line numbers.
pub open spec fn as_line(n: int) -> int {
    if n < 1 {
        1
    } else if n > usize::MAX {
        usize::MAX as int
    } else {
        n
    }
}

/// Where a line that was shown is now, and by how much it moved. Nothing when
/// nothing is recorded for the path.
pub open spec fn corrected(l: LedgerView, path: Seq<char>, line: int) -> Option<(int, int)> {
    if l.shifts.contains_key(path) {
        let d = carried(l.shifts[path], line);
        Some(
            (
                if l.shifts[path].len() == 0 {
                    line
                } else {
                    as_line(line + d)
                },
                d,
            ),
        )
    } else {
        None
    }
}

/// The operation that a name stands for; an unknown name stands for a read.
pub open spec fn known_op(op: Seq<char>) -> Seq<char> {
    if op == "read"@ || op == "edited"@ || op == "created"@ || op == "deleted"@ || op == "moved"@ {
        op
    } else {
        "read"@
    }
}

/// The ledger after one change made elsewhere.
pub open spec fn adopted(l: LedgerView, e: EntryView) -> LedgerView {
    let op = known_op(e.op);
    let cache = if op == "read"@ {
        l.cache
    } else {
        CacheView { entries: not_for(l.cache.entries, e.path), ..l.cache }
    };
    noted(LedgerView { cache, ..l }, EntryView { op, ..e })
}

/// The ledger after the first `n` changes made elsewhere.
pub open spec fn adopted_all(l: LedgerView, entries: Seq<EntryView>, n: int) -> LedgerView
    decreases n,
{
    if n <= 0 {
        l
    } else {
        adopted(adopted_all(l, entries, n - 1), entries[n - 1])
    }
}

/// One line of the summary.
pub open spec fn summary_line(e: EntryView) -> Seq<char> {
    "  "@ + left_aligned(e.path, 50) + " "@ + right_aligned(
        if e.line_count > 0 {
            dec(e.line_count as nat) + "L"@
        } else {
            "—"@
        },
        6,
    ) + "  ("@ + e.op + ")\n"@
}

/// The lines of the summary for the last `n` files, the last one first.
pub open spec fn summary_lines(files: Seq<EntryView>, n: int) -> Seq<char>
    decreases n,
{
    if n <= 0 {
        Seq::<char>::empty()
    } else {
        summary_lines(files, n - 1) + summary_line(files[files.len() - n])
    }
}

/// The summary of the files touched last.
pub open spec fn summary_text(files: Seq<EntryView>) -> Seq<char> {
    let shown = if files.len() > MAX_SUMMARY_FILES {
        MAX_SUMMARY_FILES as int
    } else {
        files.len() as int
    };
    if files.len() == 0 {
        Seq::<char>::empty()
    } else {
        "<file_state>\n"@ + summary_lines(files, shown) + (if files.len() > MAX_SUMMARY_FILES {
            "  ... ("@ + dec((files.len() - MAX_SUMMARY_FILES) as nat) + " more files)\n"@
        } else {
            ""@
        }) + "</file_state>"@
    }
}

fn same_entry(e: &StateEntry) -> (r: StateEntry)
    ensures
        r@ == e@,
{
    StateEntry {
        path: e.path.clone(),
        op: e.op.clone(),
        line_count: e.line_count,
        hash: match &e.hash {
            Some(h) => Some(h.clone()),
            None => None,
        },
    }
}

fn leave_out(files: Vec<StateEntry>, path: &str) -> (out: Vec<StateEntry>)
    ensures
        state_views(out@) == apart_from(state_views(files@), path@),
{
    let ghost all = state_views(files@);
    let mut rest: Vec<StateEntry> = files;
    let mut out: Vec<StateEntry> = Vec::new();
    let ghost mut done: int = 0;
    proof {
        assert(all.take(0) =~= Seq::<EntryView>::empty());
        assert(state_views(out@) =~= Seq::<EntryView>::empty());
        assert(all.skip(0) =~= all);
    }
    while rest.len() > 0
        invariant
            0 <= done <= all.len(),
            state_views(rest@) == all.skip(done),
            state_views(out@) == apart_from(all.take(done), path@),
        decreases rest@.len(),
    {
        let ghost before = rest@;
        let ghost kept = state_views(out@);
        let e: StateEntry = rest.remove(0);
        proof {
            assert(state_views(before)[0] == e@);
            assert(all.skip(done).len() == before.len());
            assert(all.skip(done)[0] == all[done]);
            assert(state_views(rest@) =~= state_views(before).skip(1));
            assert(all.skip(done).skip(1) =~= all.skip(done + 1));
            assert(all.take(done + 1).drop_last() =~= all.take(done));
            done = done + 1;
        }
        if !text_eq(e.path.as_str(), path) {
            out.push(e);
            proof {
                assert(state_views(out@) =~= kept.push(e@));
            }
        }
    }
    proof {
        assert(state_views(rest@).len() == 0);
        assert(all.take(done) =~= all);
    }
    out
}

impl Moves {
    /// The edits follow one another, and together they hold all moves.
    #[verifier::type_invariant]
    spec fn in_order(self) -> bool {
        &&& forall|k: int|
            0 <= k < self.ends@.len() ==> start_of(self.ends@, k) <= #[trigger] self.ends@[k]
                <= self.all@.len()
        &&& start_of(self.ends@, self.ends@.len() as int) == self.all@.len()
    }

    fn new() -> (m: Moves)
        ensures
            m@ == Seq::<Seq<LineShift>>::empty(),
    {
        let m: Moves = Moves { all: Vec::new(), ends: Vec::new() };
        proof {
            assert(m@ =~= Seq::<Seq<LineShift>>::empty());
        }
        m
    }

    fn len(&self) -> (n: usize)
        ensures
            n == self@.len(),
    {
        self.ends.len()
    }

    fn with_edit(self, shifts: &[(usize, i64)]) -> (m: Moves)
        ensures
            m@ == with_moves(self@, real_moves(shifts@)),
    {
        proof {
            use_type_invariant(&self);
        }
        let ghost before = self@;
        let Moves { mut all, mut ends } = self;
        let ghost first = all@;
        let ghost ends0 = ends@;
        proof {
            assert(shifts@.take(0) =~= Seq::<(usize, i64)>::empty());
            assert(first + real_moves(shifts@.take(0)) =~= first);
        }
        let start: usize = all.len();
        let mut i: usize = 0;
        while i < shifts.len()
            invariant
                i <= shifts@.len(),
                all@ == first + real_moves(shifts@.take(i as int)),
            decreases shifts@.len() - i,
        {
            let (before_line, delta): (usize, i64) = shifts[i];
            proof {
                assert(shifts@.take(i + 1).drop_last() =~= shifts@.take(i as int));
                assert(shifts@.take(i + 1).last() == shifts@[i as int]);
            }
            if delta != 0 {
                all.push(LineShift { before_line, delta });
            }
            i = i + 1;
            proof {
                assert(all@ =~= first + real_moves(shifts@.take(i as int)));
            }
        }
        proof {
            assert(shifts@.take(shifts@.len() as int) =~= shifts@);
        }
        if all.len() > start {
            ends.push(all.len());
        }
        proof {
            assert forall|k: int| 0 <= k < ends@.len() implies start_of(ends@, k)
                <= #[trigger] ends@[k] <= all@.len() by {
                if k < ends0.len() {
                    assert(ends@[k] == ends0[k]);
                    assert(start_of(ends@, k) == start_of(ends0, k));
                } else {
                    assert(start_of(ends@, k) == start_of(ends0, k));
                }
            }
        }
        let m: Moves = Moves { all, ends };
        proof {
            let more = real_moves(shifts@);
            assert(m@.len() == with_moves(before, more).len());
            assert forall|k: int| 0 <= k < m@.len() implies m@[k] == with_moves(before, more)[k] by {
                if k < ends0.len() {
                    assert(start_of(m.ends@, k) == start_of(ends0, k));
                    assert(m.ends@[k] == ends0[k]);
                    assert(before[k] == first.subrange(start_of(ends0, k), ends0[k] as int));
                    assert(m.all@.subrange(start_of(ends0, k), ends0[k] as int) =~= before[k]);
                } else {
                    assert(start_of(m.ends@, k) == start_of(ends0, k));
                    assert(m.all@.subrange(first.len() as int, m.all@.len() as int) =~= more);
                }
            }
            assert(m@ =~= with_moves(before, more));
        }
        m
    }

    fn carry(&self, line: usize) -> (d: i128)
        ensures
            d == carried(self@, line as int),
    {
        proof {
            use_type_invariant(self);
        }
        let ghost edits = self@;
        let mut d: i128 = 0;
        let mut k: usize = 0;
        let mut i: usize = 0;
        proof {
            assert(edits.take(0) =~= Seq::<Seq<LineShift>>::empty());
        }
        while k < self.ends.len()
            invariant
                self.in_order(),
                edits == self@,
                k <= self.ends@.len(),
                i == start_of(self.ends@, k as int),
                i <= self.all@.len(),
                d == carried(edits.take(k as int), line as int),
                -0x8000_0000_0000_0000 * i <= d <= 0x8000_0000_0000_0000 * i,
            decreases self.ends@.len() - k,
        {
            let ghost edit = edits[k as int];
            let ghost start = i as int;
            let end: usize = self.ends[k];
            let base: i128 = d;
            proof {
                assert(start_of(self.ends@, k as int) <= self.ends@[k as int]);
                assert(edit =~= self.all@.subrange(start, end as int));
                assert(edit.take(0) =~= Seq::<LineShift>::empty());
            }
            while i < end
                invariant
                    start <= i <= end <= self.all@.len(),
                    edit == self.all@.subrange(start, end as int),
                    d == base + moved_by(edit.take(i - start), line + base),
                    -0x8000_0000_0000_0000 * start <= base <= 0x8000_0000_0000_0000 * start,
                    0 <= start,
                    -0x8000_0000_0000_0000 * i <= d <= 0x8000_0000_0000_0000 * i,
                decreases end - i,
            {
                proof {
                    assert(edit.take(i - start + 1).drop_last() =~= edit.take(i - start));
                    assert(edit.take(i - start + 1).last() == self.all@[i as int]);
                    assert(i < 0x1_0000_0000_0000_0000);
                }
                let m: LineShift = self.all[i];
                if base >= m.before_line as i128 - line as i128 {
                    d = d + m.delta as i128;
                }
                i = i + 1;
            }
            proof {
                assert(edit.take(i - start) =~= edit);
                assert(edits.take(k + 1).drop_last() =~= edits.take(k as int));
                assert(edits.take(k + 1).last() == edit);
            }
            k = k + 1;
        }
        proof {
            assert(edits.take(k as int) =~= edits);
        }
        d
    }
}

proof fn lemma_chains_remove(m: Map<Seq<char>, Moves>, path: Seq<char>)
    ensures
        chains(m.remove(path)) == chains(m).remove(path),
{
    assert(chains(m.remove(path)) =~= chains(m).remove(path));
}

impl Ledger {
    /// A ledger that knows of no file.
    pub fn new() -> (l: Ledger)
        ensures
            l@.files == Seq::<EntryView>::empty(),
            l@.queue == Seq::<EntryView>::empty(),
            l@.shifts == Map::<Seq<char>, Seq<Seq<LineShift>>>::empty(),
            l@.cache.entries.len() == 0,
            l@.cache.last_read is None,
    {
        let l: Ledger = Ledger {
            files: Vec::new(),
            queue: Vec::new(),
            shifts: Keyed::new(),
            cache: FileCache::new(),
        };
        proof {
            assert(l@.files =~= Seq::<EntryView>::empty());
            assert(l@.queue =~= Seq::<EntryView>::empty());
            assert(l@.shifts =~= Map::<Seq<char>, Seq<Seq<LineShift>>>::empty());
        }
        l
    }

    fn note(&mut self, e: StateEntry)
        ensures
            final(self)@ == noted(old(self)@, e@),
    {
        let ghost before = self@;
        let mut files: Vec<StateEntry> = Vec::new();
        std::mem::swap(&mut files, &mut self.files);
        let mut kept: Vec<StateEntry> = leave_out(files, e.path.as_str());
        let ghost k = state_views(kept@);
        let copy: StateEntry = same_entry(&e);
        let ghost q = state_views(self.queue@);
        kept.push(copy);
        self.files = kept;
        self.queue.push(e);
        proof {
            assert(state_views(self.files@) =~= k.push(e@));
            assert(state_views(self.queue@) =~= q.push(e@));
        }
    }

    fn forget_shifts(&mut self, path: &str)
        ensures
            final(self)@ == (LedgerView { shifts: old(self)@.shifts.remove(path@), ..old(self)@ }),
    {
        proof {
            lemma_chains_remove(self.shifts@, path@);
        }
        let gone: Option<Moves> = self.shifts.remove(path);
    }

    fn knows(&self, path: &str) -> (r: bool)
        ensures
            r == (last_entry(self@.files, path@) is Some),
    {
        self.find(path).is_some()
    }

    fn find(&self, path: &str) -> (r: Option<&StateEntry>)
        ensures
            match r {
                Some(e) => last_entry(self@.files, path@) == Some(e@),
                None => last_entry(self@.files, path@) is None,
            },
    {
        let ghost v = state_views(self.files@);
        let mut n: usize = self.files.len();
        proof {
            assert(v.take(v.len() as int) =~= v);
        }
        while n > 0
            invariant
                n <= self.files@.len(),
                v == state_views(self.files@),
                last_entry(v, path@) == last_entry(v.take(n as int), path@),
            decreases n,
        {
            proof {
                assert(v.take(n as int).last() == self.files@[n - 1]@);
                assert(v.take(n as int).drop_last() =~= v.take(n - 1));
            }
            if text_eq(self.files[n - 1].path.as_str(), path) {
                return Some(&self.files[n - 1]);
            }
            n = n - 1;
        }
        None
    }
}

fn ledger_hash(content: &str) -> (h: String)
    ensures
        h@ == canonical_hash(content@),
{
    let (lf, _cr): (String, bool) = normalize_newlines(content);
    content_hash(lf.as_str())
}

/// Takes the changes since the last time, and empties the queue.
pub fn take_pending(ledger: &mut Ledger) -> (out: Vec<StateEntry>)
    ensures
        state_views(out@) == old(ledger)@.queue,
        final(ledger)@ == (LedgerView { queue: Seq::<EntryView>::empty(), ..old(ledger)@ }),
{
    let mut out: Vec<StateEntry> = Vec::new();
    std::mem::swap(&mut out, &mut ledger.queue);
    proof {
        assert(state_views(ledger.queue@) =~= Seq::<EntryView>::empty());
    }
    out
}

fn op_name(op: &str) -> (r: &'static str)
    ensures
        r@ == known_op(op@),
{
    if text_eq(op, "read") {
        "read"
    } else if text_eq(op, "edited") {
        "edited"
    } else if text_eq(op, "created") {
        "created"
    } else if text_eq(op, "deleted") {
        "deleted"
    } else if text_eq(op, "moved") {
        "moved"
    } else {
        "read"
    }
}

/// Takes over changes that were made elsewhere.
pub fn apply_pending(ledger: &mut Ledger, entries: Vec<StateEntry>)
    ensures
        final(ledger)@ == adopted_all(
            old(ledger)@,
            state_views(entries@),
            entries@.len() as int,
        ),
{
    let ghost start = ledger@;
    let ghost v = state_views(entries@);
    let mut i: usize = 0;
    while i < entries.len()
        invariant
            i <= entries@.len(),
            v == state_views(entries@),
            ledger@ == adopted_all(start, v, i as int),
        decreases entries@.len() - i,
    {
        let ghost now = ledger@;
        let e: &StateEntry = &entries[i];
        proof {
            assert(v[i as int] == e@);
        }
        let op: &str = op_name(e.op.as_str());
        if !text_eq(op, "read") {
            invalidate(&mut ledger.cache, e.path.as_str());
        }
        let mut copy: StateEntry = same_entry(e);
        copy.op = op.to_owned();
        proof {
            assert(copy@ =~= EntryView { op: op@, ..e@ });
        }
        ledger.note(copy);
        i = i + 1;
        proof {
            assert(ledger@ == adopted(now, e@));
        }
    }
}

/// Records that a file was read, wholly or in part: from here on lines are counted
/// anew.
pub fn record_read(ledger: &mut Ledger, path: &str, content: &str, line_count: usize)
    ensures
        final(ledger)@ == (LedgerView {
            shifts: old(ledger)@.shifts.remove(path@),
            cache: with_file(old(ledger)@.cache, path@, short_hash(content@), line_count),
            ..noted(
                old(ledger)@,
                EntryView {
                    path: path@,
                    op: "read"@,
                    line_count: line_count as int,
                    hash: Some(canonical_hash(content@)),
                },
            )
        }),
{
    store(&mut ledger.cache, path, content, line_count);
    ledger.note(
        StateEntry {
            path: path.to_owned(),
            op: "read".to_owned(),
            line_count,
            hash: Some(ledger_hash(content)),
        },
    );
    ledger.forget_shifts(path);
}

/// A cache without one file.
pub open spec fn forgetting(c: CacheView, path: Seq<char>) -> CacheView {
    CacheView { entries: not_for(c.entries, path), ..c }
}

/// The ledger after a write of the whole file.
pub open spec fn after_write(l: LedgerView, path: Seq<char>, content: Seq<char>) -> LedgerView {
    let op = if last_entry(l.files, path) is Some {
        "edited"@
    } else {
        "created"@
    };
    LedgerView {
        shifts: l.shifts.remove(path),
        cache: forgetting(l.cache, path),
        ..noted(l, after_change(op, path, content))
    }
}

/// Records that a file was written as a whole: lines that were shown mean nothing
/// any more.
pub fn record_write(ledger: &mut Ledger, path: &str, content: &str)
    ensures
        final(ledger)@ == after_write(old(ledger)@, path@, content@),
{
    invalidate(&mut ledger.cache, path);
    let op: &str = if ledger.knows(path) {
        "edited"
    } else {
        "created"
    };
    ledger.note(
        StateEntry {
            path: path.to_owned(),
            op: op.to_owned(),
            line_count: count_lines(content),
            hash: Some(ledger_hash(content)),
        },
    );
    ledger.forget_shifts(path);
}

/// The ledger after an edit that moved lines.
pub open spec fn after_edit(
    l: LedgerView,
    path: Seq<char>,
    content: Seq<char>,
    shifts: Seq<(usize, i64)>,
) -> LedgerView {
    LedgerView {
        shifts: l.shifts.insert(path, with_moves(chain(l, path), real_moves(shifts))),
        cache: forgetting(l.cache, path),
        ..noted(l, after_change("edited"@, path, content))
    }
}

/// Records an edit, and how it moved the lines behind each change.
pub fn record_edit_with_shifts(
    ledger: &mut Ledger,
    path: &str,
    content: &str,
    shifts: &[(usize, i64)],
)
    ensures
        final(ledger)@ == after_edit(old(ledger)@, path@, content@, shifts@),
{
    let ghost start = ledger@;
    record_edit(ledger, path, content);
    let ghost mid = ledger.shifts@;
    let moves: Moves = match ledger.shifts.remove(path) {
        Some(m) => m,
        None => Moves::new(),
    };
    proof {
        assert(moves@ == chain(start, path@));
    }
    let more: Moves = moves.with_edit(shifts);
    ledger.shifts.insert(path.to_owned(), more);
    proof {
        assert(ledger.shifts@ =~= mid.insert(path@, more));
        assert(chains(ledger.shifts@) =~= start.shifts.insert(path@, more@));
    }
}

/// Where a line that was shown is now, and by how much it moved.
pub fn correct_line(ledger: &Ledger, path: &str, line: usize) -> (r: Option<(usize, i128)>)
    ensures
        match r {
            Some(p) => corrected(ledger@, path@, line as int) == Some((p.0 as int, p.1 as int)),
            None => corrected(ledger@, path@, line as int) is None,
        },
{
    let moves: &Moves = match ledger.shifts.get(path) {
        Some(m) => m,
        None => {
            return None;
        },
    };
    if moves.len() == 0 {
        return Some((line, 0));
    }
    let delta: i128 = moves.carry(line);
    let to: usize = if delta >= 0 {
        let room: usize = usize::MAX - line;
        if delta > room as i128 {
            usize::MAX
        } else {
            let n: usize = line + delta as usize;
            if n < 1 {
                1
            } else {
                n
            }
        }
    } else if -(delta + 1) >= line as i128 - 1 {
        1
    } else {
        let back: usize = (-delta) as usize;
        line - back
    };
    Some((to, delta))
}

/// Records that the caller has seen current line numbers: nothing has moved since.
pub fn record_grep(ledger: &mut Ledger, path: &str)
    ensures
        final(ledger)@ == (LedgerView {
            shifts: old(ledger)@.shifts.remove(path@),
            ..old(ledger)@
        }),
{
    ledger.forget_shifts(path);
}

/// Records an edit.
pub fn record_edit(ledger: &mut Ledger, path: &str, content: &str)
    ensures
        final(ledger)@ == (LedgerView {
            cache: forgetting(old(ledger)@.cache, path@),
            ..noted(old(ledger)@, after_change("edited"@, path@, content@))
        }),
{
    invalidate(&mut ledger.cache, path);
    ledger.note(
        StateEntry {
            path: path.to_owned(),
            op: "edited".to_owned(),
            line_count: count_lines(content),
            hash: Some(ledger_hash(content)),
        },
    );
}

/// Records that a file was deleted: lines that were shown mean nothing any more.
pub fn record_delete(ledger: &mut Ledger, path: &str)
    ensures
        final(ledger)@ == (LedgerView {
            shifts: old(ledger)@.shifts.remove(path@),
            cache: forgetting(old(ledger)@.cache, path@),
            ..noted(
                old(ledger)@,
                EntryView { path: path@, op: "deleted"@, line_count: 0, hash: None },
            )
        }),
{
    invalidate(&mut ledger.cache, path);
    ledger.note(
        StateEntry { path: path.to_owned(), op: "deleted".to_owned(), line_count: 0, hash: None },
    );
    ledger.forget_shifts(path);
}

/// The fingerprint that a file had when a tool last saw it.
pub open spec fn seen_hash(l: LedgerView, path: Seq<char>) -> Option<Seq<char>> {
    match last_entry(l.files, path) {
        Some(e) => e.hash,
        None => None,
    }
}

/// The fingerprint that a file had when a tool last saw it; none when no tool has.
pub fn last_hash(ledger: &Ledger, path: &str) -> (r: Option<String>)
    ensures
        opt_text(r) == seen_hash(ledger@, path@),
{
    match ledger.find(path) {
        Some(e) => match &e.hash {
            Some(h) => Some(h.clone()),
            None => None,
        },
        None => None,
    }
}

/// Summarizes the files touched last.
pub fn summary(ledger: &Ledger) -> (out: String)
    ensures
        out@ == summary_text(ledger@.files),
{
    let total: usize = ledger.files.len();
    let ghost v = state_views(ledger.files@);
    if total == 0 {
        let out: String = String::new();
        proof {
            assert(out@ =~= Seq::<char>::empty());
        }
        return out;
    }
    let shown: usize = if total > MAX_SUMMARY_FILES {
        MAX_SUMMARY_FILES
    } else {
        total
    };
    let mut out: String = "<file_state>\n".to_owned();
    let ghost head = out@;
    let mut n: usize = 0;
    proof {
        assert(head + summary_lines(v, 0) =~= head);
    }
    while n < shown
        invariant
            n <= shown <= total == ledger.files@.len(),
            v == state_views(ledger.files@),
            out@ == head + summary_lines(v, n as int),
        decreases shown - n,
    {
        let e: &StateEntry = &ledger.files[total - 1 - n];
        proof {
            assert(v[v.len() - (n + 1)] == e@);
        }
        let lines: String = if e.line_count > 0 {
            let mut t: String = decimal_size(e.line_count);
            t.append("L");
            t
        } else {
            "—".to_owned()
        };
        let mut line: String = "  ".to_owned();
        line.append(pad_right(e.path.as_str(), 50).as_str());
        line.append(" ");
        line.append(pad_left(lines.as_str(), 6).as_str());
        line.append("  (");
        line.append(e.op.as_str());
        line.append(")\n");
        out.append(line.as_str());
        n = n + 1;
        proof {
            assert(out@ =~= head + summary_lines(v, n as int));
        }
    }
    if total > MAX_SUMMARY_FILES {
        let mut more: String = "  ... (".to_owned();
        more.append(decimal_size(total - MAX_SUMMARY_FILES).as_str());
        more.append(" more files)\n");
        out.append(more.as_str());
    } else {
        out.append("");
    }
    out.append("</file_state>");
    out
}

/// The ledger at the start of a session.
pub open spec fn fresh() -> LedgerView {
    LedgerView {
        files: Seq::<EntryView>::empty(),
        queue: Seq::<EntryView>::empty(),
        shifts: Map::<Seq<char>, Seq<Seq<LineShift>>>::empty(),
        cache: CacheView {
            entries: Seq::<crate::file_cache::CachedView>::empty(),
            last_read: None,
        },
    }
}

/// Forgets everything, for a new session: the files, the changes not yet taken, the moves
/// of lines and what has been shown.
pub fn clear(ledger: &mut Ledger)
    ensures
        final(ledger)@ == fresh(),
{
    *ledger = Ledger::new();
    proof {
        assert(ledger@ =~= fresh());
    }
}

proof fn lemma_apart_from(files: Seq<EntryView>, path: Seq<char>)
    ensures
        forall|i: int|
            0 <= i < apart_from(files, path).len() ==> (#[trigger] apart_from(files, path)[i]).path
                != path,
        forall|other: Seq<char>|
            other != path ==> #[trigger] last_entry(apart_from(files, path), other) == last_entry(
                files,
                other,
            ),
    decreases files.len(),
{
    if files.len() > 0 {
        let front = files.drop_last();
        lemma_apart_from(front, path);
        let all = apart_from(files, path);
        let kept = apart_from(front, path);
        assert forall|i: int| 0 <= i < all.len() implies (#[trigger] all[i]).path != path by {
            if i < kept.len() {
                assert(all[i] == kept[i]);
            }
        }
        assert forall|other: Seq<char>| other != path implies #[trigger] last_entry(all, other)
            == last_entry(files, other) by {
            if files.last().path != path {
                assert(all.drop_last() =~= kept);
            }
            assert(last_entry(kept, other) == last_entry(front, other));
        }
    }
}

/// What was recorded last for a path is what the ledger says of it, and the rest of
/// the ledger stays as it was.
pub proof fn last_record_wins(files: Seq<EntryView>, e: EntryView, other: Seq<char>)
    ensures
        last_entry(touched(files, e), e.path) == Some(e),
        other != e.path ==> last_entry(touched(files, e), other) == last_entry(files, other),
{
    lemma_apart_from(files, e.path);
    assert(touched(files, e).drop_last() =~= apart_from(files, e.path));
    if other != e.path {
        assert(last_entry(apart_from(files, e.path), other) == last_entry(files, other));
    }
}

/// Each path occurs once.
pub open spec fn one_each(files: Seq<EntryView>) -> bool {
    forall|i: int, j: int|
        0 <= i < j < files.len() ==> (#[trigger] files[i]).path != (#[trigger] files[j]).path
}

proof fn lemma_apart_keeps_one_each(files: Seq<EntryView>, path: Seq<char>)
    requires
        one_each(files),
    ensures
        one_each(apart_from(files, path)),
        forall|i: int|
            0 <= i < apart_from(files, path).len() ==> files.contains(
                #[trigger] apart_from(files, path)[i],
            ),
    decreases files.len(),
{
    if files.len() > 0 {
        let front = files.drop_last();
        assert forall|i: int, j: int| 0 <= i < j < front.len() implies (#[trigger] front[i]).path
            != (#[trigger] front[j]).path by {
            assert(front[i] == files[i]);
            assert(front[j] == files[j]);
        }
        lemma_apart_keeps_one_each(front, path);
        let all = apart_from(files, path);
        let kept = apart_from(front, path);
        assert forall|i: int| 0 <= i < all.len() implies files.contains(#[trigger] all[i]) by {
            if i < kept.len() {
                assert(all[i] == kept[i]);
                assert(front.contains(kept[i]));
                let k = choose|k: int| 0 <= k < front.len() && front[k] == kept[i];
                assert(files[k] == all[i]);
            } else {
                assert(files[files.len() - 1] == all[i]);
            }
        }
        assert forall|i: int, j: int| 0 <= i < j < all.len() implies (#[trigger] all[i]).path != (
        #[trigger] all[j]).path by {
            assert(all[i] == kept[i]);
            if j < kept.len() {
                assert(all[j] == kept[j]);
            } else {
                assert(front.contains(kept[i]));
                let k = choose|k: int| 0 <= k < front.len() && front[k] == kept[i];
                assert(files[k].path != files[files.len() - 1].path);
            }
        }
    }
}

/// A ledger that lists each path once goes on doing so.
pub proof fn each_file_is_listed_once(files: Seq<EntryView>, e: EntryView)
    requires
        one_each(files),
    ensures
        one_each(touched(files, e)),
{
    lemma_apart_keeps_one_each(files, e.path);
    lemma_apart_from(files, e.path);
    let kept = apart_from(files, e.path);
    let all = touched(files, e);
    assert forall|i: int, j: int| 0 <= i < j < all.len() implies (#[trigger] all[i]).path != (
    #[trigger] all[j]).path by {
        assert(all[i] == kept[i]);
        if j < kept.len() {
            assert(all[j] == kept[j]);
        }
    }
}

/// The files after some changes.
pub open spec fn replayed(files: Seq<EntryView>, changes: Seq<EntryView>) -> Seq<EntryView>
    decreases changes.len(),
{
    if changes.len() == 0 {
        files
    } else {
        touched(replayed(files, changes.drop_last()), changes.last())
    }
}

/// The queue tells the whole story: a ledger whose files are those at some start
/// with the queued changes replayed stays one as more is recorded.
pub proof fn queue_tells_every_change(start: Seq<EntryView>, l: LedgerView, e: EntryView)
    requires
        l.files == replayed(start, l.queue),
    ensures
        noted(l, e).files == replayed(start, noted(l, e).queue),
{
    assert(l.queue.push(e).drop_last() =~= l.queue);
}

/// A ledger elsewhere that takes the queued changes over comes to the same files.
pub proof fn remote_ledger_agrees(l: LedgerView, changes: Seq<EntryView>, n: int)
    requires
        0 <= n <= changes.len(),
        forall|i: int| 0 <= i < changes.len() ==> known_op((#[trigger] changes[i]).op) == changes[i].op,
    ensures
        adopted_all(l, changes, n).files == replayed(l.files, changes.take(n)),
    decreases n,
{
    if n > 0 {
        remote_ledger_agrees(l, changes, n - 1);
        assert(changes.take(n).drop_last() =~= changes.take(n - 1));
        assert(changes.take(n).last() == changes[n - 1]);
        assert(known_op(changes[n - 1].op) == changes[n - 1].op);
        assert(EntryView { op: changes[n - 1].op, ..changes[n - 1] } == changes[n - 1]);
    } else {
        assert(changes.take(0) =~= Seq::<EntryView>::empty());
    }
}

/// After a read nothing is corrected: the lines shown are the lines there are.
pub proof fn read_is_a_new_baseline(l: LedgerView, path: Seq<char>, line: int)
    ensures
        corrected(LedgerView { shifts: l.shifts.remove(path), ..l }, path, line) is None,
{
}

/// After a write of the whole file nothing is corrected either.
pub proof fn write_clears_the_moves(
    l: LedgerView,
    path: Seq<char>,
    content: Seq<char>,
    line: int,
)
    ensures
        corrected(after_write(l, path, content), path, line) is None,
{
}

/// Edits move a line one after the other: a new edit moves it from where the earlier ones
/// have left it, not from where it was first shown.
pub proof fn edits_carry_a_line_in_turn(
    l: LedgerView,
    path: Seq<char>,
    content: Seq<char>,
    shifts: Seq<(usize, i64)>,
    line: int,
)
    ensures
        ({
            let d = carried(chain(l, path), line);
            carried(chain(after_edit(l, path, content, shifts), path), line) == d + moved_by(
                real_moves(shifts),
                line + d,
            )
        }),
        corrected(after_edit(l, path, content, shifts), path, line) matches Some(p) && p.1
            == carried(chain(l, path), line) + moved_by(
            real_moves(shifts),
            line + carried(chain(l, path), line),
        ) && (1 <= line <= usize::MAX ==> p.0 == as_line(line + p.1)),
{
    let edits = chain(l, path);
    let more = real_moves(shifts);
    if more.len() > 0 {
        assert(edits.push(more).drop_last() =~= edits);
    }
}

/// A file that was deleted or a session that begins anew has no moves left.
pub proof fn nothing_moves_once_forgotten(l: LedgerView, path: Seq<char>, line: int)
    ensures
        corrected(LedgerView { shifts: l.shifts.remove(path), ..l }, path, line) is None,
        corrected(fresh(), path, line) is None,
{
}

/// Lines before every change of an edit stay where they are.
pub proof fn lines_before_a_change_stay(shifts: Seq<LineShift>, line: int)
    requires
        forall|i: int| 0 <= i < shifts.len() ==> line < (#[trigger] shifts[i]).before_line,
    ensures
        moved_by(shifts, line) == 0,
    decreases shifts.len(),
{
    if shifts.len() > 0 {
        let front = shifts.drop_last();
        assert forall|i: int| 0 <= i < front.len() implies line < (
        #[trigger] front[i]).before_line by {
            assert(front[i] == shifts[i]);
        }
        lines_before_a_change_stay(front, line);
        assert(line < shifts[shifts.len() - 1].before_line);
    }
}

} // verus!
