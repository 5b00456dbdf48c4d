//! The log itself: recording a change, asking for changes, bringing a file back.

use vstd::prelude::*;

use crate::file_shared::{content_hash, diff_text, hash_of, unified_diff};
use crate::format::{byte_len, byte_length};
use crate::json::{opt_text, text_eq, texts};
use crate::keyed::Keyed;
use crate::lines::{split_lines, split_nl, views};
use crate::text::{blank, chars_of, is_blank, string_of, trim, trim_of};

verus! {

/// How large a text may be for the log to keep it; of a larger one only the hash is
/// kept.
pub const MAX_BLOB_BYTES: u128 = 1048576;

/// A change.
#[derive(Debug, PartialEq, Eq)]
pub struct Step {
    /// The place in the log.
    pub seq: u64,
    pub session: String,
    pub tool_use_id: String,
    /// Seconds since 1970.
    pub ts: u64,
    pub tool: String,
    pub file: String,
    pub op: String,
    /// The hash of the file before; nothing when it did not exist.
    pub before_sha: Option<String>,
    /// The hash of the file after; nothing when it was deleted.
    pub after_sha: Option<String>,
    /// The hash of the diff.
    pub patch_sha: Option<String>,
    pub result: String,
    pub git_before: Option<String>,
}

/// What a change says.
#[verifier::ext_equal]
pub struct StepView {
    pub seq: u64,
    pub session: Seq<char>,
    pub tool_use_id: Seq<char>,
    pub ts: u64,
    pub tool: Seq<char>,
    pub file: Seq<char>,
    pub op: Seq<char>,
    pub before_sha: Option<Seq<char>>,
    pub after_sha: Option<Seq<char>>,
    pub patch_sha: Option<Seq<char>>,
    pub result: Seq<char>,
    pub git_before: Option<Seq<char>>,
}

impl View for Step {
    type V = StepView;

    open spec fn view(&self) -> StepView {
        StepView {
            seq: self.seq,
            session: self.session@,
            tool_use_id: self.tool_use_id@,
            ts: self.ts,
            tool: self.tool@,
            file: self.file@,
            op: self.op@,
            before_sha: opt_text(self.before_sha),
            after_sha: opt_text(self.after_sha),
            patch_sha: opt_text(self.patch_sha),
            result: self.result@,
            git_before: opt_text(self.git_before),
        }
    }
}

/// The views of some changes.
pub open spec fn step_views(v: Seq<Step>) -> Seq<StepView> {
    Seq::new(v.len(), |i: int| v[i]@)
}

/// A text that the log keeps, or why it cannot be had.
#[derive(Debug, PartialEq, Eq)]
pub enum Blob {
    Text(String),
    Unreadable(String),
}

/// A text that the log keeps, or why it cannot be had.
pub open spec fn blob_view(b: Blob) -> Result<Seq<char>, Seq<char>> {
    match b {
        Blob::Text(s) => Ok(s@),
        Blob::Unreadable(e) => Err(e@),
    }
}

/// The log: the changes, and the texts they speak of, each under its hash.
pub struct Journal {
    pub steps: Vec<Step>,
    pub blobs: Keyed<Blob>,
}

/// What the log holds.
#[verifier::ext_equal]
pub struct JournalView {
    pub steps: Seq<StepView>,
    pub blobs: Map<Seq<char>, Result<Seq<char>, Seq<char>>>,
}

impl View for Journal {
    type V = JournalView;

    open spec fn view(&self) -> JournalView {
        JournalView {
            steps: step_views(self.steps@),
            blobs: self.blobs@.map_values(|b: Blob| blob_view(b)),
        }
    }
}

/// The text under a hash.
pub open spec fn blob_at(
    blobs: Map<Seq<char>, Result<Seq<char>, Seq<char>>>,
    hash: Seq<char>,
) -> Result<Seq<char>, Seq<char>> {
    if blobs.contains_key(hash) {
        blobs[hash]
    } else {
        Err("not found"@)
    }
}

impl Journal {
    /// An empty log.
    pub fn new() -> (j: Self)
        ensures
            j@.steps == Seq::<StepView>::empty(),
            j@.blobs == Map::<Seq<char>, Result<Seq<char>, Seq<char>>>::empty(),
    {
        let j = Journal { steps: Vec::new(), blobs: Keyed::new() };
        proof {
            assert(j@.steps =~= Seq::<StepView>::empty());
            assert(j@.blobs =~= Map::<Seq<char>, Result<Seq<char>, Seq<char>>>::empty());
        }
        j
    }

    /// The text under a hash, or why it cannot be had.
    pub fn read_blob(&self, hash: &str) -> (r: Result<&str, &str>)
        ensures
            match r {
                Ok(s) => blob_at(self@.blobs, hash@) == Ok::<Seq<char>, Seq<char>>(s@),
                Err(e) => blob_at(self@.blobs, hash@) == Err::<Seq<char>, Seq<char>>(e@),
            },
    {
        match self.blobs.get(hash) {
            Some(Blob::Text(s)) => Ok(s.as_str()),
            Some(Blob::Unreadable(e)) => Err(e.as_str()),
            None => Err("not found"),
        }
    }
}

/// The texts under their hashes once `content` is kept: nothing changes when it is too
/// large or its hash is already there.
pub open spec fn keeping(
    blobs: Map<Seq<char>, Result<Seq<char>, Seq<char>>>,
    content: Seq<char>,
) -> Map<Seq<char>, Result<Seq<char>, Seq<char>>> {
    if byte_len(content) > MAX_BLOB_BYTES || blobs.contains_key(hash_of(content)) {
        blobs
    } else {
        blobs.insert(hash_of(content), Ok(content))
    }
}

/// Whether a text is kept by its size.
pub fn fits_blob(content: &str) -> (r: bool)
    ensures
        r == (byte_len(content@) <= MAX_BLOB_BYTES),
{
    byte_length(chars_of(content).as_slice()) <= MAX_BLOB_BYTES
}

/// Keeps a text under its hash; gives the hash.
pub fn store_blob(j: &mut Journal, content: &str) -> (hash: String)
    ensures
        hash@ == hash_of(content@),
        final(j)@ == (JournalView { blobs: keeping(old(j)@.blobs, content@), ..old(j)@ }),
        final(j).steps == old(j).steps,
{
    let hash: String = content_hash(content);
    if fits_blob(content) && !j.blobs.contains_key(hash.as_str()) {
        let ghost before = j.blobs@;
        j.blobs.insert(hash.clone(), Blob::Text(content.to_owned()));
        proof {
            assert(j@.blobs =~= old(j)@.blobs.insert(hash_of(content@), Ok(content@)));
        }
    }
    hash
}

/// Which of the texts of a change could be kept.
#[derive(Debug, Clone, Copy, PartialEq, Eq, Structural)]
pub struct Kept {
    pub before: bool,
    pub after: bool,
    pub patch: bool,
}

/// A change to be recorded.
#[derive(Debug, PartialEq, Eq)]
pub struct Change<'a> {
    pub session: &'a str,
    pub tool_use_id: &'a str,
    pub tool: &'a str,
    pub file: &'a str,
    pub op: &'a str,
    pub before: Option<&'a str>,
    pub after: Option<&'a str>,
    pub result: &'a str,
    pub ts: u64,
    pub kept: Kept,
}

/// A borrowed text, if there is one.
pub open spec fn opt_str(s: Option<&str>) -> Option<Seq<char>> {
    match s {
        Some(t) => Some(t@),
        None => None,
    }
}

/// The diff of a change, if it has one that says anything.
pub open spec fn patch_of(c: Change) -> Option<Seq<char>> {
    match (c.before, c.after) {
        (Some(b), Some(a)) => {
            let d = diff_text(b@, a@, c.file@);
            if is_blank(d) {
                None
            } else {
                Some(d)
            }
        },
        _ => None,
    }
}

/// The hash of a text that is kept.
pub open spec fn kept_hash(content: Option<Seq<char>>, kept: bool) -> Option<Seq<char>> {
    match content {
        Some(c) => if kept {
            Some(hash_of(c))
        } else {
            None
        },
        None => None,
    }
}

/// The texts under their hashes once an optional text is kept.
pub open spec fn keeping_opt(
    blobs: Map<Seq<char>, Result<Seq<char>, Seq<char>>>,
    content: Option<Seq<char>>,
    kept: bool,
) -> Map<Seq<char>, Result<Seq<char>, Seq<char>>> {
    match content {
        Some(c) => if kept {
            keeping(blobs, c)
        } else {
            blobs
        },
        None => blobs,
    }
}

/// The largest place in the log.
pub open spec fn last_seq(steps: Seq<StepView>) -> nat
    decreases steps.len(),
{
    if steps.len() == 0 {
        0
    } else {
        let m = last_seq(steps.drop_last());
        if steps.last().seq > m {
            steps.last().seq as nat
        } else {
            m
        }
    }
}

/// The log after a change.
pub open spec fn recorded(j: JournalView, c: Change) -> JournalView {
    let b = keeping_opt(j.blobs, opt_str(c.before), c.kept.before);
    let a = keeping_opt(b, opt_str(c.after), c.kept.after);
    JournalView {
        steps: j.steps.push(
            StepView {
                seq: (last_seq(j.steps) + 1) as u64,
                session: c.session@,
                tool_use_id: c.tool_use_id@,
                ts: c.ts,
                tool: c.tool@,
                file: c.file@,
                op: c.op@,
                before_sha: kept_hash(opt_str(c.before), c.kept.before),
                after_sha: kept_hash(opt_str(c.after), c.kept.after),
                patch_sha: kept_hash(patch_of(c), c.kept.patch),
                result: c.result@,
                git_before: None,
            },
        ),
        blobs: keeping_opt(a, patch_of(c), c.kept.patch),
    }
}

/// The next place in the log.
pub fn next_seq(steps: &[Step]) -> (n: u64)
    requires
        last_seq(step_views(steps@)) < u64::MAX,
    ensures
        n == last_seq(step_views(steps@)) + 1,
{
    let mut m: u64 = 0;
    let mut i: usize = 0;
    let ghost all = step_views(steps@);
    proof {
        assert(all.take(0) =~= Seq::<StepView>::empty());
    }
    while i < steps.len()
        invariant
            i <= steps@.len(),
            all == step_views(steps@),
            m == last_seq(all.take(i as int)),
        decreases steps@.len() - i,
    {
        proof {
            assert(all.take(i + 1).drop_last() =~= all.take(i as int));
            assert(all.take(i + 1).last() == steps@[i as int]@);
        }
        if steps[i].seq > m {
            m = steps[i].seq;
        }
        i = i + 1;
    }
    proof {
        assert(all.take(i as int) =~= all);
    }
    m + 1
}

fn keep_opt(j: &mut Journal, content: Option<&str>, kept: bool) -> (hash: Option<String>)
    ensures
        opt_text(hash) == kept_hash(opt_str(content), kept),
        final(j)@ == (JournalView {
            blobs: keeping_opt(old(j)@.blobs, opt_str(content), kept),
            ..old(j)@
        }),
        final(j).steps == old(j).steps,
{
    match content {
        Some(c) => {
            if kept {
                Some(store_blob(j, c))
            } else {
                None
            }
        },
        None => None,
    }
}

/// The diff of a change, if it has one that says anything.
pub fn patch_text(c: &Change) -> (r: Option<String>)
    ensures
        opt_text(r) == patch_of(*c),
{
    match (c.before, c.after) {
        (Some(b), Some(a)) => {
            let d: String = unified_diff(b, a, c.file);
            if blank(chars_of(d.as_str()).as_slice()) {
                None
            } else {
                Some(d)
            }
        },
        _ => None,
    }
}

/// Records a change; gives its place in the log.
pub fn record_change(j: &mut Journal, c: &Change) -> (seq: u64)
    requires
        last_seq(old(j)@.steps) < u64::MAX,
    ensures
        final(j)@ == recorded(old(j)@, *c),
        seq == last_seq(old(j)@.steps) + 1,
{
    let seq: u64 = next_seq(j.steps.as_slice());
    let before_sha: Option<String> = keep_opt(j, c.before, c.kept.before);
    let after_sha: Option<String> = keep_opt(j, c.after, c.kept.after);
    let patch: Option<String> = patch_text(c);
    let patch_sha: Option<String> = match &patch {
        Some(p) => keep_opt(j, Some(p.as_str()), c.kept.patch),
        None => None,
    };
    let step = Step {
        seq,
        session: c.session.to_owned(),
        tool_use_id: c.tool_use_id.to_owned(),
        ts: c.ts,
        tool: c.tool.to_owned(),
        file: c.file.to_owned(),
        op: c.op.to_owned(),
        before_sha,
        after_sha,
        patch_sha,
        result: c.result.to_owned(),
        git_before: None,
    };
    j.steps.push(step);
    proof {
        assert(step_views(j.steps@) =~= step_views(old(j).steps@).push(step@));
        assert(j@ =~= recorded(old(j)@, *c));
    }
    seq
}

/// Whether a change is asked for.
pub open spec fn asked(
    s: StepView,
    session: Option<Seq<char>>,
    file: Option<Seq<char>>,
    since: Option<u64>,
) -> bool {
    &&& session matches Some(x) ==> s.session == x
    &&& file matches Some(x) ==> s.file == x
    &&& since matches Some(t) ==> s.ts >= t
}

/// The changes that are asked for, in order.
pub open spec fn selected(
    steps: Seq<StepView>,
    session: Option<Seq<char>>,
    file: Option<Seq<char>>,
    since: Option<u64>,
) -> Seq<StepView>
    decreases steps.len(),
{
    if steps.len() == 0 {
        Seq::empty()
    } else {
        let before = selected(steps.drop_last(), session, file, since);
        if asked(steps.last(), session, file, since) {
            before.push(steps.last())
        } else {
            before
        }
    }
}

fn copy_opt(s: &Option<String>) -> (r: Option<String>)
    ensures
        opt_text(r) == opt_text(*s),
{
    match s {
        Some(t) => Some(t.clone()),
        None => None,
    }
}

fn copy_step(s: &Step) -> (r: Step)
    ensures
        r@ == s@,
{
    Step {
        seq: s.seq,
        session: s.session.clone(),
        tool_use_id: s.tool_use_id.clone(),
        ts: s.ts,
        tool: s.tool.clone(),
        file: s.file.clone(),
        op: s.op.clone(),
        before_sha: copy_opt(&s.before_sha),
        after_sha: copy_opt(&s.after_sha),
        patch_sha: copy_opt(&s.patch_sha),
        result: s.result.clone(),
        git_before: copy_opt(&s.git_before),
    }
}

/// The changes that are asked for, in the order of the log.
pub fn query(
    j: &Journal,
    session: Option<&str>,
    file: Option<&str>,
    since: Option<u64>,
) -> (out: Vec<Step>)
    ensures
        step_views(out@) == selected(j@.steps, opt_str(session), opt_str(file), since),
{
    let mut out: Vec<Step> = Vec::new();
    let mut i: usize = 0;
    let ghost all = j@.steps;
    proof {
        assert(all.take(0) =~= Seq::<StepView>::empty());
        assert(step_views(out@) =~= Seq::<StepView>::empty());
    }
    while i < j.steps.len()
        invariant
            i <= j.steps@.len(),
            all == j@.steps,
            step_views(out@) == selected(
                all.take(i as int),
                opt_str(session),
                opt_str(file),
                since,
            ),
        decreases j.steps@.len() - i,
    {
        let s: &Step = &j.steps[i];
        let ghost before = out@;
        proof {
            assert(all.take(i + 1).drop_last() =~= all.take(i as int));
            assert(all.take(i + 1).last() == s@);
        }
        let a: bool = match session {
            Some(x) => text_eq(s.session.as_str(), x),
            None => true,
        };
        let b: bool = match file {
            Some(x) => text_eq(s.file.as_str(), x),
            None => true,
        };
        let c: bool = match since {
            Some(t) => s.ts >= t,
            None => true,
        };
        if a && b && c {
            out.push(copy_step(s));
            proof {
                assert(step_views(out@) =~= step_views(before).push(s@));
            }
        }
        i = i + 1;
    }
    proof {
        assert(all.take(i as int) =~= all);
    }
    out
}

/// Changes in order, and one more put in its place: behind all that do not come after
/// it.
pub open spec fn put(sorted: Seq<StepView>, x: StepView) -> Seq<StepView>
    decreases sorted.len(),
{
    if sorted.len() > 0 && x.seq < sorted.last().seq {
        put(sorted.drop_last(), x).push(sorted.last())
    } else {
        sorted.push(x)
    }
}

/// Changes in the order of their places in the log.
pub open spec fn in_sequence(steps: Seq<StepView>) -> Seq<StepView>
    decreases steps.len(),
{
    if steps.len() == 0 {
        steps
    } else {
        put(in_sequence(steps.drop_last()), steps.last())
    }
}

proof fn lemma_put(sorted: Seq<StepView>, x: StepView, p: int)
    requires
        0 <= p <= sorted.len(),
        forall|k: int| p <= k < sorted.len() ==> x.seq < (#[trigger] sorted[k]).seq,
        p == 0 || x.seq >= sorted[p - 1].seq,
    ensures
        put(sorted, x) == sorted.insert(p, x),
    decreases sorted.len(),
{
    if p < sorted.len() {
        let front = sorted.drop_last();
        assert(x.seq < sorted[sorted.len() - 1].seq);
        assert forall|k: int| p <= k < front.len() implies x.seq < (#[trigger] front[k]).seq by {
            assert(front[k] == sorted[k]);
        }
        lemma_put(front, x, p);
        assert(front.insert(p, x).push(sorted.last()) =~= sorted.insert(p, x));
    } else {
        assert(sorted.insert(p, x) =~= sorted.push(x));
    }
}

fn sort_steps(steps: Vec<Step>) -> (out: Vec<Step>)
    ensures
        step_views(out@) == in_sequence(step_views(steps@)),
{
    let mut out: Vec<Step> = Vec::new();
    let ghost all = step_views(steps@);
    let mut i: usize = 0;
    proof {
        assert(all.take(0) =~= Seq::<StepView>::empty());
        assert(step_views(out@) =~= Seq::<StepView>::empty());
    }
    while i < steps.len()
        invariant
            i <= steps@.len(),
            all == step_views(steps@),
            step_views(out@) == in_sequence(all.take(i as int)),
        decreases steps@.len() - i,
    {
        let x: Step = copy_step(&steps[i]);
        let ghost before = step_views(out@);
        proof {
            assert(all.take(i + 1).drop_last() =~= all.take(i as int));
            assert(all.take(i + 1).last() == x@);
        }
        let mut p: usize = out.len();
        while p > 0 && x.seq < out[p - 1].seq
            invariant
                p <= out@.len(),
                before == step_views(out@),
                forall|k: int| p <= k < before.len() ==> x.seq < (#[trigger] before[k]).seq,
            decreases p,
        {
            proof {
                assert(before[p - 1] == out@[p - 1]@);
            }
            p = p - 1;
        }
        proof {
            if p > 0 {
                assert(before[p - 1] == out@[p - 1]@);
            }
            lemma_put(before, x@, p as int);
        }
        let ghost xv = x@;
        out.insert(p, x);
        proof {
            assert(step_views(out@) =~= before.insert(p as int, xv));
        }
        i = i + 1;
    }
    proof {
        assert(all.take(i as int) =~= all);
    }
    out
}

/// A file after some changes up to a place in the log: its text, or nothing when it
/// does not exist; an error when a text cannot be had.
pub open spec fn restored(
    steps: Seq<StepView>,
    blobs: Map<Seq<char>, Result<Seq<char>, Seq<char>>>,
    at: Option<u64>,
) -> Result<Option<Seq<char>>, Seq<char>>
    decreases steps.len(),
{
    if steps.len() == 0 {
        Ok(None)
    } else {
        let s = steps.last();
        match restored(steps.drop_last(), blobs, at) {
            Err(e) => Err(e),
            Ok(current) => if at is Some && s.seq > at->0 {
                Ok(current)
            } else {
                match s.after_sha {
                    None => Ok(None),
                    Some(h) => match blob_at(blobs, h) {
                        Ok(text) => Ok(Some(text)),
                        Err(e) => Err(
                            "cannot read blob "@ + h + " for "@ + s.file + ": "@ + e,
                        ),
                    },
                }
            },
        }
    }
}

proof fn lemma_error_stays(
    steps: Seq<StepView>,
    blobs: Map<Seq<char>, Result<Seq<char>, Seq<char>>>,
    at: Option<u64>,
    i: int,
)
    requires
        0 <= i <= steps.len(),
        restored(steps.take(i), blobs, at) is Err,
    ensures
        restored(steps, blobs, at) == restored(steps.take(i), blobs, at),
    decreases steps.len(),
{
    if i == steps.len() {
        assert(steps.take(i) =~= steps);
    } else {
        assert(steps.drop_last().take(i) =~= steps.take(i));
        lemma_error_stays(steps.drop_last(), blobs, at, i);
    }
}

/// A file as it was at a place in the log, or at its end.
pub open spec fn replayed(
    j: JournalView,
    file: Seq<char>,
    at: Option<u64>,
) -> Result<Option<Seq<char>>, Seq<char>> {
    restored(in_sequence(selected(j.steps, None, Some(file), None)), j.blobs, at)
}

/// Brings a file back as it was at a place in the log, or at its end; nothing when it
/// did not exist there.
pub fn replay_file(j: &Journal, file: &str, at_seq: Option<u64>) -> (r: Result<
    Option<String>,
    String,
>)
    ensures
        match replayed(j@, file@, at_seq) {
            Ok(v) => r matches Ok(c) && opt_text(c) == v,
            Err(e) => r matches Err(f) && f@ == e,
        },
{
    let steps: Vec<Step> = sort_steps(query(j, None, Some(file), None));
    let ghost all = step_views(steps@);
    let mut current: Option<String> = None;
    let mut i: usize = 0;
    proof {
        assert(all.take(0) =~= Seq::<StepView>::empty());
    }
    while i < steps.len()
        invariant
            i <= steps@.len(),
            all == step_views(steps@),
            all == in_sequence(selected(j@.steps, None, Some(file@), None)),
            restored(all.take(i as int), j@.blobs, at_seq) == Ok::<Option<Seq<char>>, Seq<char>>(
                opt_text(current),
            ),
        decreases steps@.len() - i,
    {
        let s: &Step = &steps[i];
        proof {
            assert(all.take(i + 1).drop_last() =~= all.take(i as int));
            assert(all.take(i + 1).last() == s@);
        }
        let skip: bool = match at_seq {
            Some(limit) => s.seq > limit,
            None => false,
        };
        if !skip {
            match &s.after_sha {
                Some(h) => match j.read_blob(h.as_str()) {
                    Ok(text) => {
                        current = Some(text.to_owned());
                    },
                    Err(e) => {
                        let mut message: String = "cannot read blob ".to_owned();
                        message.append(h.as_str());
                        message.append(" for ");
                        message.append(s.file.as_str());
                        message.append(": ");
                        message.append(e);
                        proof {
                            lemma_error_stays(all, j@.blobs, at_seq, i + 1);
                        }
                        return Err(message);
                    },
                },
                None => {
                    current = None;
                },
            }
        }
        i = i + 1;
    }
    proof {
        assert(all.take(i as int) =~= all);
    }
    Ok(current)
}

/// Brings a file back, as `replay_file` does.
pub fn replay(j: &Journal, file: &str, at_seq: Option<u64>) -> (r: Result<Option<String>, String>)
    ensures
        match replayed(j@, file@, at_seq) {
            Ok(v) => r matches Ok(c) && opt_text(c) == v,
            Err(e) => r matches Err(f) && f@ == e,
        },
{
    replay_file(j, file, at_seq)
}

/// A text under an optional hash, if it can be had.
pub open spec fn text_under(
    blobs: Map<Seq<char>, Result<Seq<char>, Seq<char>>>,
    hash: Option<Seq<char>>,
) -> Option<Seq<char>> {
    match hash {
        Some(h) => match blob_at(blobs, h) {
            Ok(t) => Some(t),
            Err(_) => None,
        },
        None => None,
    }
}

/// A change as a patch.
pub open spec fn patch_text_of(
    s: StepView,
    blobs: Map<Seq<char>, Result<Seq<char>, Seq<char>>>,
) -> Seq<char> {
    match (text_under(blobs, s.before_sha), text_under(blobs, s.after_sha)) {
        (Some(b), Some(a)) => if b == a {
            Seq::empty()
        } else {
            diff_text(b, a, s.file) + "\n"@
        },
        (None, Some(a)) => "=== Add File: "@ + s.file + " ===\n"@ + a + "\n"@,
        (Some(b), None) => "=== Delete File: "@ + s.file + " ===\n"@ + b + "\n"@,
        (None, None) => Seq::empty(),
    }
}

/// Changes as patches, in order.
pub open spec fn patches_of(
    steps: Seq<StepView>,
    blobs: Map<Seq<char>, Result<Seq<char>, Seq<char>>>,
) -> Seq<char>
    decreases steps.len(),
{
    if steps.len() == 0 {
        Seq::empty()
    } else {
        patches_of(steps.drop_last(), blobs) + patch_text_of(steps.last(), blobs)
    }
}

fn blob_under<'a>(j: &'a Journal, hash: &Option<String>) -> (r: Option<&'a str>)
    ensures
        opt_str(r) == text_under(j@.blobs, opt_text(*hash)),
{
    match hash {
        Some(h) => match j.read_blob(h.as_str()) {
            Ok(t) => Some(t),
            Err(_) => None,
        },
        None => None,
    }
}

fn one_patch(j: &Journal, s: &Step) -> (out: String)
    ensures
        out@ == patch_text_of(s@, j@.blobs),
{
    match (blob_under(j, &s.before_sha), blob_under(j, &s.after_sha)) {
        (Some(b), Some(a)) => {
            if text_eq(b, a) {
                String::new()
            } else {
                let mut out: String = unified_diff(b, a, s.file.as_str());
                out.append("\n");
                out
            }
        },
        (None, Some(a)) => {
            let mut out: String = "=== Add File: ".to_owned();
            out.append(s.file.as_str());
            out.append(" ===\n");
            out.append(a);
            out.append("\n");
            out
        },
        (Some(b), None) => {
            let mut out: String = "=== Delete File: ".to_owned();
            out.append(s.file.as_str());
            out.append(" ===\n");
            out.append(b);
            out.append("\n");
            out
        },
        (None, None) => String::new(),
    }
}

/// Writes changes as patches.
pub fn export_patches(j: &Journal, steps: &[Step]) -> (out: String)
    ensures
        out@ == patches_of(step_views(steps@), j@.blobs),
{
    let mut out: String = String::new();
    let ghost all = step_views(steps@);
    let mut i: usize = 0;
    proof {
        assert(all.take(0) =~= Seq::<StepView>::empty());
    }
    while i < steps.len()
        invariant
            i <= steps@.len(),
            all == step_views(steps@),
            out@ == patches_of(all.take(i as int), j@.blobs),
        decreases steps@.len() - i,
    {
        proof {
            assert(all.take(i + 1).drop_last() =~= all.take(i as int));
            assert(all.take(i + 1).last() == steps@[i as int]@);
        }
        out.append(one_patch(j, &steps[i]).as_str());
        i = i + 1;
    }
    proof {
        assert(all.take(i as int) =~= all);
    }
    out
}

/// The lines that hold an entry: those that are not blank, without white space at
/// their ends.
pub open spec fn filled_lines(lines: Seq<Seq<char>>) -> Seq<Seq<char>>
    decreases lines.len(),
{
    if lines.len() == 0 {
        Seq::<Seq<char>>::empty()
    } else {
        let front = filled_lines(lines.drop_last());
        if trim(lines.last()).len() == 0 {
            front
        } else {
            front.push(trim(lines.last()))
        }
    }
}

/// The entries of a log on disk, one to a line.
pub fn step_lines(text: &str) -> (out: Vec<String>)
    ensures
        texts(out@) == filled_lines(split_nl(text@)),
{
    let lines: Vec<Vec<char>> = split_lines(chars_of(text).as_slice());
    let ghost all = views(lines@);
    let mut out: Vec<String> = Vec::new();
    let mut i: usize = 0;
    proof {
        assert(all.take(0) =~= Seq::<Seq<char>>::empty());
        assert(texts(out@) =~= Seq::<Seq<char>>::empty());
    }
    while i < lines.len()
        invariant
            i <= lines@.len(),
            all == views(lines@),
            texts(out@) == filled_lines(all.take(i as int)),
        decreases lines@.len() - i,
    {
        let ghost before = out@;
        let line: Vec<char> = trim_of(lines[i].as_slice());
        proof {
            assert(all.take(i + 1).drop_last() =~= all.take(i as int));
            assert(all.take(i + 1).last() == lines@[i as int]@);
        }
        if line.len() > 0 {
            out.push(string_of(line.as_slice()));
            proof {
                assert(texts(out@) =~= texts(before).push(line@));
            }
        }
        i = i + 1;
    }
    proof {
        assert(all.take(i as int) =~= all);
    }
    out
}

} // verus!
