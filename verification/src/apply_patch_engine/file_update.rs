//! From the changes of a patch to the new content of a file.

use vstd::prelude::*;

use crate::apply_patch_engine::parser::{chunk_views, ChunkView, UpdateFileChunk};
use crate::apply_patch_engine::seek_sequence::{char_lines, seek_lines, sought};
use crate::file_shared::{lf_view, normalize_newlines};
use crate::lines::{extend, join, join_parts, lemma_split_short, nl, split_lines, views};
use crate::numbered::{count_split, counted_lines};
use crate::raw_lines::{close_off, closed_off, lemma_next_line, next_line};
use crate::text::{chars_of, slice_of, string_of};

verus! {

/// How the lines of an updated file end.
#[derive(Debug, Clone, Copy, PartialEq, Eq, Structural)]
pub enum UpdateMode {
    /// Every line ends in a newline.
    NormalizeToLf,
    /// Lines keep their ends, and new ones get the ending that the file prefers.
    PreserveLineEndings,
}

/// A file before and after its update.
#[derive(Debug, PartialEq, Eq)]
pub struct AppliedPatch {
    pub original_contents: String,
    pub new_contents: String,
}

/// Some lines of a file and what takes their place.
pub struct Replacement {
    pub start: usize,
    pub old_len: usize,
    pub new_lines: Vec<Vec<char>>,
}

/// What a replacement says.
#[verifier::ext_equal]
pub struct RepView {
    pub start: int,
    pub old_len: int,
    pub new_lines: Seq<Seq<char>>,
}

impl View for Replacement {
    type V = RepView;

    open spec fn view(&self) -> RepView {
        RepView {
            start: self.start as int,
            old_len: self.old_len as int,
            new_lines: views(self.new_lines@),
        }
    }
}

/// What a list of replacements says.
pub open spec fn rep_views(v: Seq<Replacement>) -> Seq<RepView> {
    Seq::new(v.len(), |i: int| v[i]@)
}

/// The context lines of a change stand in order, on either side.
pub open spec fn well_kept(c: ChunkView) -> bool {
    &&& forall|i: int|
        0 <= i < c.kept.len() ==> 0 <= (#[trigger] c.kept[i]).0 < c.old_lines.len() && 0
            <= c.kept[i].1 < c.new_lines.len()
    &&& forall|i: int, j: int|
        0 <= i < j < c.kept.len() ==> (#[trigger] c.kept[i]).0 < (#[trigger] c.kept[j]).0
            && c.kept[i].1 < c.kept[j].1
}

/// A text list without an empty text at its end.
pub open spec fn without_empty_end(s: Seq<Seq<char>>) -> Seq<Seq<char>> {
    if s.len() > 0 && s.last().len() == 0 {
        s.drop_last()
    } else {
        s
    }
}

/// The replacements of a change from its context line `k` on: what lies between
/// context lines is replaced, and they stay.
pub open spec fn between_kept(
    kept: Seq<(int, int)>,
    k: int,
    o: int,
    n: int,
    pat_len: int,
    new_lines: Seq<Seq<char>>,
    start: int,
) -> Seq<RepView>
    decreases kept.len() - k,
{
    if k < 0 || k >= kept.len() || kept[k].0 >= pat_len || kept[k].1 >= new_lines.len() {
        if o != pat_len || n != new_lines.len() {
            seq![
                RepView { start: start + o, old_len: pat_len - o, new_lines: new_lines.skip(n) },
            ]
        } else {
            Seq::<RepView>::empty()
        }
    } else {
        let (oc, nc) = kept[k];
        (if o != oc || n != nc {
            seq![
                RepView {
                    start: start + o,
                    old_len: oc - o,
                    new_lines: new_lines.subrange(n, nc),
                },
            ]
        } else {
            Seq::<RepView>::empty()
        }) + between_kept(kept, k + 1, oc + 1, nc + 1, pat_len, new_lines, start)
    }
}

/// Where lines that replace none are put in.
pub open spec fn insertion_point(lines: Seq<Seq<char>>, mode: UpdateMode) -> int {
    if mode == UpdateMode::NormalizeToLf && lines.len() > 0 && lines.last().len() == 0 {
        lines.len() - 1
    } else {
        lines.len() as int
    }
}

/// Where a change is looked for: behind its context, if it names one.
pub open spec fn after_context(
    lines: Seq<Seq<char>>,
    path: Seq<char>,
    c: ChunkView,
    from: int,
    mode: UpdateMode,
) -> Result<int, Seq<char>> {
    match c.context {
        None => Ok(from),
        Some(ctx) => match sought(lines, seq![ctx], from, false, mode) {
            Some(i) => Ok(i + 1),
            None => Err("Failed to find context '"@ + ctx + "' in "@ + path),
        },
    }
}

/// The old and new lines of a change and where the old ones are. An empty line at the
/// end of the old ones may stand for the end of the file.
pub open spec fn matched(lines: Seq<Seq<char>>, c: ChunkView, from: int, mode: UpdateMode) -> Option<
    (Seq<Seq<char>>, Seq<Seq<char>>, int),
> {
    match sought(lines, c.old_lines, from, c.eof, mode) {
        Some(i) => Some((c.old_lines, c.new_lines, i)),
        None => if c.old_lines.last().len() == 0 {
            match sought(lines, c.old_lines.drop_last(), from, c.eof, mode) {
                Some(i) => Some((c.old_lines.drop_last(), without_empty_end(c.new_lines), i)),
                None => None,
            }
        } else {
            None
        },
    }
}

/// The replacements of a change and the line behind it, or why it has none.
pub open spec fn chunk_replacements(
    lines: Seq<Seq<char>>,
    path: Seq<char>,
    c: ChunkView,
    from: int,
    mode: UpdateMode,
) -> Result<(Seq<RepView>, int), Seq<char>> {
    match after_context(lines, path, c, from, mode) {
        Err(e) => Err(e),
        Ok(at) => if c.old_lines.len() == 0 {
            Ok(
                (
                    seq![
                        RepView {
                            start: insertion_point(lines, mode),
                            old_len: 0,
                            new_lines: c.new_lines,
                        },
                    ],
                    at,
                ),
            )
        } else {
            match matched(lines, c, at, mode) {
                None => Err(
                    "Failed to find expected lines in "@ + path + ":\n"@ + join(c.old_lines, nl()),
                ),
                Some((old, new, i)) => Ok(
                    (
                        if mode == UpdateMode::NormalizeToLf {
                            seq![RepView { start: i, old_len: old.len() as int, new_lines: new }]
                        } else {
                            between_kept(c.kept, 0, 0, 0, old.len() as int, new, i)
                        },
                        i + old.len(),
                    ),
                ),
            }
        },
    }
}

/// The replacements of the first `n` changes and the line behind them, or why there
/// are none.
pub open spec fn replacements_upto(
    lines: Seq<Seq<char>>,
    path: Seq<char>,
    chunks: Seq<ChunkView>,
    n: int,
    mode: UpdateMode,
) -> Result<(Seq<RepView>, int), Seq<char>>
    decreases n,
{
    if n <= 0 {
        Ok((Seq::<RepView>::empty(), 0))
    } else {
        match replacements_upto(lines, path, chunks, n - 1, mode) {
            Err(e) => Err(e),
            Ok((reps, from)) => match chunk_replacements(lines, path, chunks[n - 1], from, mode) {
                Err(e) => Err(e),
                Ok((more, next)) => Ok((reps + more, next)),
            },
        }
    }
}

/// A replacement put in its place, behind all that start no later.
pub open spec fn put_rep(sorted: Seq<RepView>, r: RepView) -> Seq<RepView>
    decreases sorted.len(),
{
    if sorted.len() > 0 && sorted.last().start > r.start {
        put_rep(sorted.drop_last(), r).push(sorted.last())
    } else {
        sorted.push(r)
    }
}

/// Replacements by where they start.
pub open spec fn by_start(reps: Seq<RepView>) -> Seq<RepView>
    decreases reps.len(),
{
    if reps.len() == 0 {
        Seq::<RepView>::empty()
    } else {
        put_rep(by_start(reps.drop_last()), reps.last())
    }
}

/// The lines from `from` on with replacements made at their places in these lines.
pub open spec fn rebuilt(lines: Seq<Seq<char>>, reps: Seq<RepView>, from: int) -> Seq<Seq<char>>
    decreases reps.len(),
{
    if reps.len() == 0 {
        lines.skip(from)
    } else {
        let r = reps[0];
        let s = if r.start < from {
            from
        } else {
            r.start
        };
        let e = if r.start + r.old_len < from {
            from
        } else {
            r.start + r.old_len
        };
        lines.subrange(from, s) + r.new_lines + rebuilt(lines, reps.skip(1), e)
    }
}

/// The new lines of a file, or why it cannot be updated.
pub open spec fn updated_lines(
    lines: Seq<Seq<char>>,
    path: Seq<char>,
    chunks: Seq<ChunkView>,
    mode: UpdateMode,
) -> Result<Seq<RepView>, Seq<char>> {
    match replacements_upto(lines, path, chunks, chunks.len() as int, mode) {
        Err(e) => Err(e),
        Ok((reps, _)) => Ok(by_start(reps)),
    }
}

/// Lines as the text of a file that ends in a newline.
pub open spec fn as_file(lines: Seq<Seq<char>>) -> Seq<char> {
    join(
        if lines.len() == 0 || lines.last().len() > 0 {
            lines.push(Seq::<char>::empty())
        } else {
            lines
        },
        nl(),
    )
}

/// The lines of a file from position `p` on, with their line breaks.
pub open spec fn raw_lines_from(s: Seq<char>, p: int) -> Seq<Seq<char>>
    decreases s.len() - p,
{
    if p < 0 || p >= s.len() {
        Seq::<Seq<char>>::empty()
    } else {
        proof {
            lemma_next_line_moves(s, p);
        }
        seq![s.subrange(p, next_line(s, p))] + raw_lines_from(s, next_line(s, p))
    }
}

pub proof fn lemma_next_line_moves(s: Seq<char>, p: int)
    requires
        0 <= p < s.len(),
    ensures
        p < next_line(s, p) <= s.len(),
    decreases s.len() - p,
{
    if !(s[p] == '\r' || s[p] == '\n') {
        lemma_next_line(s, p + 1);
    }
}

/// A line without its line break.
pub open spec fn line_text(l: Seq<char>) -> Seq<char> {
    if l.len() >= 2 && l[l.len() - 2] == '\r' && l.last() == '\n' {
        l.take(l.len() - 2)
    } else if l.len() >= 1 && (l.last() == '\r' || l.last() == '\n') {
        l.drop_last()
    } else {
        l
    }
}

/// The line break of a line, if it has one.
pub open spec fn line_ending(l: Seq<char>) -> Seq<char> {
    l.skip(line_text(l).len() as int)
}

/// The texts of lines.
pub open spec fn line_texts(lines: Seq<Seq<char>>) -> Seq<Seq<char>> {
    Seq::new(lines.len(), |i: int| line_text(lines[i]))
}

/// The line break that a file prefers: that of its first line.
pub open spec fn preferred_ending(lines: Seq<Seq<char>>) -> Seq<char> {
    if lines.len() > 0 && line_ending(lines[0]).len() > 0 {
        line_ending(lines[0])
    } else {
        nl()
    }
}

/// Lines with a line break each.
pub open spec fn ended(lines: Seq<Seq<char>>, eol: Seq<char>) -> Seq<Seq<char>> {
    Seq::new(lines.len(), |i: int| lines[i] + eol)
}

/// Replacements whose new lines have line breaks.
pub open spec fn ended_reps(reps: Seq<RepView>, eol: Seq<char>) -> Seq<RepView> {
    Seq::new(
        reps.len(),
        |i: int| RepView { new_lines: ended(reps[i].new_lines, eol), ..reps[i] },
    )
}

/// Lines one after another; only the last may lack a line break.
pub open spec fn glued(lines: Seq<Seq<char>>, eol: Seq<char>) -> Seq<char>
    decreases lines.len(),
{
    if lines.len() == 0 {
        Seq::<char>::empty()
    } else {
        closed_all(lines.drop_last(), eol) + lines.last()
    }
}

/// Lines one after another, each closed off by a line break.
pub open spec fn closed_all(lines: Seq<Seq<char>>, eol: Seq<char>) -> Seq<char>
    decreases lines.len(),
{
    if lines.len() == 0 {
        Seq::<char>::empty()
    } else {
        closed_all(lines.drop_last(), eol) + closed_off(lines.last(), eol)
    }
}

/// The new content of a file, or why it cannot be updated.
pub open spec fn updated_contents(
    original: Seq<char>,
    path: Seq<char>,
    chunks: Seq<ChunkView>,
    mode: UpdateMode,
) -> Result<Seq<char>, Seq<char>> {
    if mode == UpdateMode::NormalizeToLf {
        let lines = counted_lines(lf_view(original));
        match updated_lines(lines, path, chunks, mode) {
            Err(e) => Err(e),
            Ok(reps) => Ok(as_file(rebuilt(lines, reps, 0))),
        }
    } else {
        let raw = raw_lines_from(original, 0);
        let eol = preferred_ending(raw);
        match updated_lines(line_texts(raw), path, chunks, mode) {
            Err(e) => Err(e),
            Ok(reps) => Ok(glued(rebuilt(raw, ended_reps(reps, eol), 0), eol)),
        }
    }
}

/// A replacement lies within `n` lines.
pub open spec fn rep_fits(r: RepView, n: int) -> bool {
    0 <= r.start && 0 <= r.old_len && r.start + r.old_len <= n
}

/// All replacements lie within `n` lines.
pub open spec fn reps_fit(reps: Seq<RepView>, n: int) -> bool {
    forall|i: int| 0 <= i < reps.len() ==> rep_fits(#[trigger] reps[i], n)
}

fn copy_lines(lines: &[Vec<char>], from: usize, to: usize) -> (out: Vec<Vec<char>>)
    requires
        from <= to <= lines@.len(),
    ensures
        views(out@) == views(lines@).subrange(from as int, to as int),
{
    let ghost v = views(lines@).subrange(from as int, to as int);
    let mut out: Vec<Vec<char>> = Vec::new();
    let mut i: usize = from;
    while i < to
        invariant
            from <= i <= to <= lines@.len(),
            v == views(lines@).subrange(from as int, to as int),
            out@.len() == i - from,
            forall|k: int| 0 <= k < out@.len() ==> #[trigger] out@[k]@ == v[k],
        decreases to - i,
    {
        let l: Vec<char> = slice_of(lines[i].as_slice(), 0, lines[i].len());
        proof {
            assert(l@ =~= lines@[i as int]@);
            assert(v[i - from] == views(lines@)[i as int]);
        }
        out.push(l);
        i = i + 1;
    }
    proof {
        assert(views(out@) =~= v);
    }
    out
}

fn push_rep(reps: &mut Vec<Replacement>, r: Replacement)
    ensures
        rep_views(final(reps)@) == rep_views(old(reps)@).push(r@),
{
    let ghost before = rep_views(reps@);
    reps.push(r);
    proof {
        assert(rep_views(reps@) =~= before.push(r@));
    }
}

/// Adds the replacements between the context lines of a change.
fn split_at_kept(
    reps: &mut Vec<Replacement>,
    kept: &[(usize, usize)],
    pat_len: usize,
    new_lines: &[Vec<char>],
    start: usize,
    Ghost(c): Ghost<ChunkView>,
    Ghost(total): Ghost<int>,
)
    requires
        c.kept == crate::apply_patch_engine::parser::pair_views(kept@),
        well_kept(c),
        pat_len <= c.old_lines.len(),
        start + pat_len <= total <= usize::MAX,
        reps_fit(rep_views(old(reps)@), total),
    ensures
        rep_views(final(reps)@) == rep_views(old(reps)@) + between_kept(
            c.kept,
            0,
            0,
            0,
            pat_len as int,
            views(new_lines@),
            start as int,
        ),
        reps_fit(rep_views(final(reps)@), total),
{
    let ghost first = rep_views(reps@);
    let ghost v = views(new_lines@);
    let ghost whole = between_kept(c.kept, 0, 0, 0, pat_len as int, v, start as int);
    let n: usize = new_lines.len();
    let mut o: usize = 0;
    let mut w: usize = 0;
    let mut k: usize = 0;
    proof {
        assert(first + whole =~= rep_views(reps@) + whole);
    }
    while k < kept.len() && kept[k].0 < pat_len && kept[k].1 < n
        invariant
            k <= kept@.len(),
            c.kept == crate::apply_patch_engine::parser::pair_views(kept@),
            well_kept(c),
            n == new_lines@.len() == v.len(),
            v == views(new_lines@),
            o <= pat_len <= c.old_lines.len(),
            w <= n,
            start + pat_len <= total <= usize::MAX,
            k < kept@.len() ==> o <= kept@[k as int].0 && w <= kept@[k as int].1,
            reps_fit(rep_views(reps@), total),
            whole == between_kept(c.kept, 0, 0, 0, pat_len as int, v, start as int),
            first + whole == rep_views(reps@) + between_kept(
                c.kept,
                k as int,
                o as int,
                w as int,
                pat_len as int,
                v,
                start as int,
            ),
        decreases kept@.len() - k,
    {
        let (oc, nc): (usize, usize) = kept[k];
        let ghost now = rep_views(reps@);
        proof {
            assert(c.kept[k as int] == (oc as int, nc as int));
            if k + 1 < kept@.len() {
                assert(c.kept[k + 1] == (kept@[k + 1].0 as int, kept@[k + 1].1 as int));
                assert(c.kept[k as int].0 < c.kept[k + 1].0);
            }
        }
        if o != oc || w != nc {
            let part: Vec<Vec<char>> = copy_lines(new_lines, w, nc);
            let r: Replacement = Replacement { start: start + o, old_len: oc - o, new_lines: part };
            let ghost rv = r@;
            push_rep(reps, r);
            proof {
                assert(rv =~= RepView {
                    start: start + o,
                    old_len: oc - o,
                    new_lines: v.subrange(w as int, nc as int),
                });
                let rest = between_kept(
                    c.kept,
                    k + 1,
                    oc + 1,
                    nc + 1,
                    pat_len as int,
                    v,
                    start as int,
                );
                assert(now + (seq![rv] + rest) =~= now.push(rv) + rest);
            }
        } else {
            proof {
                let rest = between_kept(
                    c.kept,
                    k + 1,
                    oc + 1,
                    nc + 1,
                    pat_len as int,
                    v,
                    start as int,
                );
                assert(Seq::<RepView>::empty() + rest =~= rest);
            }
        }
        o = oc + 1;
        w = nc + 1;
        k = k + 1;
    }
    proof {
        if k < kept@.len() {
            assert(c.kept[k as int] == (kept@[k as int].0 as int, kept@[k as int].1 as int));
        }
    }
    let ghost now = rep_views(reps@);
    if o != pat_len || w != n {
        let part: Vec<Vec<char>> = copy_lines(new_lines, w, n);
        let r: Replacement = Replacement {
            start: start + o,
            old_len: pat_len - o,
            new_lines: part,
        };
        let ghost rv = r@;
        push_rep(reps, r);
        proof {
            assert(v.subrange(w as int, n as int) =~= v.skip(w as int));
            assert(now + seq![rv] =~= now.push(rv));
        }
    } else {
        proof {
            assert(now + Seq::<RepView>::empty() =~= now);
        }
    }
}

fn last_is_empty(lines: &[Vec<char>]) -> (r: bool)
    ensures
        r == (lines@.len() > 0 && views(lines@).last().len() == 0),
{
    let n: usize = lines.len();
    if n > 0 {
        proof {
            assert(views(lines@).last() == lines@[n - 1]@);
        }
        lines[n - 1].len() == 0
    } else {
        false
    }
}

/// Finds the replacements of one change.
fn place_chunk(
    reps: &mut Vec<Replacement>,
    lines: &[Vec<char>],
    path: &str,
    chunk: &UpdateFileChunk,
    from: usize,
    mode: UpdateMode,
) -> (r: Result<usize, String>)
    requires
        from <= lines@.len(),
        well_kept(chunk@),
        reps_fit(rep_views(old(reps)@), lines@.len() as int),
    ensures
        match r {
            Ok(next) => {
                &&& chunk_replacements(
                    views(lines@),
                    path@,
                    chunk@,
                    from as int,
                    mode,
                ) is Ok
                &&& rep_views(final(reps)@) == rep_views(old(reps)@) + chunk_replacements(
                    views(lines@),
                    path@,
                    chunk@,
                    from as int,
                    mode,
                )->Ok_0.0
                &&& chunk_replacements(
                    views(lines@),
                    path@,
                    chunk@,
                    from as int,
                    mode,
                )->Ok_0.1 == next
                &&& next <= lines@.len()
                &&& reps_fit(rep_views(final(reps)@), lines@.len() as int)
            },
            Err(e) => chunk_replacements(views(lines@), path@, chunk@, from as int, mode) == Err::<
                (Seq<RepView>, int),
                Seq<char>,
            >(e@),
        },
{
    let ghost v = views(lines@);
    let ghost first = rep_views(reps@);
    let n: usize = lines.len();
    let mut at: usize = from;
    if let Some(ctx) = &chunk.change_context {
        let mut one: Vec<Vec<char>> = Vec::new();
        one.push(chars_of(ctx.as_str()));
        proof {
            assert(views(one@) =~= seq![ctx@]);
        }
        match seek_lines(lines, one.as_slice(), from, false, mode) {
            Some(i) => {
                at = i + 1;
            },
            None => {
                let mut message: String = "Failed to find context '".to_owned();
                message.append(ctx.as_str());
                message.append("' in ");
                message.append(path);
                return Err(message);
            },
        }
    }
    let old: Vec<Vec<char>> = char_lines(chunk.old_lines.as_slice());
    let new: Vec<Vec<char>> = char_lines(chunk.new_lines.as_slice());
    if old.len() == 0 {
        let ends_empty: bool = last_is_empty(lines);
        let point: usize = match mode {
            UpdateMode::NormalizeToLf => if ends_empty {
                n - 1
            } else {
                n
            },
            UpdateMode::PreserveLineEndings => n,
        };
        let r: Replacement = Replacement { start: point, old_len: 0, new_lines: new };
        let ghost rv = r@;
        push_rep(reps, r);
        proof {
            assert(first + seq![rv] =~= first.push(rv));
        }
        return Ok(at);
    }
    let mut pat_len: usize = old.len();
    let mut new_len: usize = new.len();
    let mut found: Option<usize> = seek_lines(
        lines,
        old.as_slice(),
        at,
        chunk.is_end_of_file,
        mode,
    );
    if found.is_none() && last_is_empty(old.as_slice()) {
        pat_len = pat_len - 1;
        if last_is_empty(new.as_slice()) {
            new_len = new_len - 1;
        }
        let shorter: Vec<Vec<char>> = copy_lines(old.as_slice(), 0, pat_len);
        proof {
            assert(views(shorter@) =~= chunk@.old_lines.drop_last());
        }
        found = seek_lines(lines, shorter.as_slice(), at, chunk.is_end_of_file, mode);
    }
    let i: usize = match found {
        Some(i) => i,
        None => {
            let newline: Vec<char> = vec!['\n'];
            proof {
                assert(newline@ =~= nl());
            }
            let body: Vec<char> = join_parts(old.as_slice(), newline.as_slice());
            let mut message: String = "Failed to find expected lines in ".to_owned();
            message.append(path);
            message.append(":\n");
            message.append(string_of(body.as_slice()).as_str());
            return Err(message);
        },
    };
    let kept_new: Vec<Vec<char>> = copy_lines(new.as_slice(), 0, new_len);
    proof {
        assert(matched(v, chunk@, at as int, mode) is Some);
        let m = matched(v, chunk@, at as int, mode)->0;
        assert(m.2 == i);
        assert(m.0.len() == pat_len);
        assert(views(kept_new@) =~= m.1);
        assert(i + pat_len <= n);
    }
    match mode {
        UpdateMode::NormalizeToLf => {
            let r: Replacement = Replacement { start: i, old_len: pat_len, new_lines: kept_new };
            let ghost rv = r@;
            push_rep(reps, r);
            proof {
                assert(first + seq![rv] =~= first.push(rv));
            }
        },
        UpdateMode::PreserveLineEndings => {
            split_at_kept(
                reps,
                chunk.context_line_indices.as_slice(),
                pat_len,
                kept_new.as_slice(),
                i,
                Ghost(chunk@),
                Ghost(n as int),
            );
        },
    }
    Ok(i + pat_len)
}

proof fn lemma_put_rep(sorted: Seq<RepView>, r: RepView, p: int)
    requires
        0 <= p <= sorted.len(),
        forall|k: int| p <= k < sorted.len() ==> (#[trigger] sorted[k]).start > r.start,
        p == 0 || sorted[p - 1].start <= r.start,
    ensures
        put_rep(sorted, r) == sorted.insert(p, r),
    decreases sorted.len(),
{
    if p < sorted.len() {
        let front = sorted.drop_last();
        assert(sorted[sorted.len() - 1].start > r.start);
        assert forall|k: int| p <= k < front.len() implies (#[trigger] front[k]).start > r.start by {
            assert(front[k] == sorted[k]);
        }
        lemma_put_rep(front, r, p);
        assert(front.insert(p, r).push(sorted.last()) =~= sorted.insert(p, r));
    } else {
        assert(sorted.insert(p, r) =~= sorted.push(r));
    }
}

fn sort_reps(reps: Vec<Replacement>, Ghost(n): Ghost<int>) -> (out: Vec<Replacement>)
    requires
        reps_fit(rep_views(reps@), n),
    ensures
        rep_views(out@) == by_start(rep_views(reps@)),
        reps_fit(rep_views(out@), n),
{
    let ghost all = rep_views(reps@);
    let mut rest: Vec<Replacement> = reps;
    let mut out: Vec<Replacement> = Vec::new();
    let ghost mut done: int = 0;
    proof {
        assert(all.take(0) =~= Seq::<RepView>::empty());
        assert(rep_views(out@) =~= Seq::<RepView>::empty());
        assert(all.skip(0) =~= all);
    }
    while rest.len() > 0
        invariant
            0 <= done <= all.len(),
            reps_fit(all, n),
            rep_views(rest@) == all.skip(done),
            rep_views(out@) == by_start(all.take(done)),
            reps_fit(rep_views(out@), n),
        decreases rest@.len(),
    {
        let ghost before = rest@;
        let ghost sorted = rep_views(out@);
        let r: Replacement = rest.remove(0);
        let ghost rv = r@;
        proof {
            assert(rep_views(before)[0] == rv);
            assert(all.skip(done).len() == before.len());
            assert(all.skip(done)[0] == all[done]);
            assert(rep_views(rest@) =~= rep_views(before).skip(1));
            assert(all.skip(done).skip(1) =~= all.skip(done + 1));
            assert(all.take(done + 1).drop_last() =~= all.take(done));
            assert(rep_fits(all[done], n));
        }
        let mut p: usize = out.len();
        while p > 0 && out[p - 1].start > r.start
            invariant
                p <= out@.len(),
                sorted == rep_views(out@),
                rv == r@,
                forall|k: int| p <= k < sorted.len() ==> (#[trigger] sorted[k]).start > rv.start,
            decreases p,
        {
            proof {
                assert(sorted[p - 1] == out@[p - 1]@);
            }
            p = p - 1;
        }
        proof {
            if p > 0 {
                assert(sorted[p - 1] == out@[p - 1]@);
            }
            lemma_put_rep(sorted, rv, p as int);
        }
        out.insert(p, r);
        proof {
            assert(rep_views(out@) =~= sorted.insert(p as int, rv));
            assert forall|k: int| 0 <= k < rep_views(out@).len() implies rep_fits(
                #[trigger] rep_views(out@)[k],
                n,
            ) by {
                if k < p {
                    assert(rep_views(out@)[k] == sorted[k]);
                } else if k > p {
                    assert(rep_views(out@)[k] == sorted[k - 1]);
                }
            }
            done = done + 1;
        }
    }
    proof {
        assert(rep_views(rest@).len() == 0);
        assert(all.take(done) =~= all);
    }
    out
}

proof fn lemma_replacements_stay(
    lines: Seq<Seq<char>>,
    path: Seq<char>,
    chunks: Seq<ChunkView>,
    a: int,
    b: int,
    mode: UpdateMode,
)
    requires
        0 <= a <= b,
        replacements_upto(lines, path, chunks, a, mode) is Err,
    ensures
        replacements_upto(lines, path, chunks, b, mode) == replacements_upto(
            lines,
            path,
            chunks,
            a,
            mode,
        ),
    decreases b - a,
{
    if a < b {
        lemma_replacements_stay(lines, path, chunks, a, b - 1, mode);
    }
}

/// Works the replacements of some changes out, in the order of the file.
pub fn compute_replacements(
    lines: &[Vec<char>],
    path: &str,
    chunks: &[UpdateFileChunk],
    mode: UpdateMode,
) -> (r: Result<Vec<Replacement>, String>)
    requires
        forall|i: int| 0 <= i < chunks@.len() ==> well_kept((#[trigger] chunks@[i])@),
    ensures
        match r {
            Ok(v) => updated_lines(views(lines@), path@, chunk_views(chunks@), mode) == Ok::<
                Seq<RepView>,
                Seq<char>,
            >(rep_views(v@)) && reps_fit(rep_views(v@), lines@.len() as int),
            Err(e) => updated_lines(views(lines@), path@, chunk_views(chunks@), mode) == Err::<
                Seq<RepView>,
                Seq<char>,
            >(e@),
        },
{
    let ghost v = views(lines@);
    let ghost cs = chunk_views(chunks@);
    let mut reps: Vec<Replacement> = Vec::new();
    let mut from: usize = 0;
    let mut i: usize = 0;
    proof {
        assert(rep_views(reps@) =~= Seq::<RepView>::empty());
    }
    while i < chunks.len()
        invariant
            i <= chunks@.len(),
            v == views(lines@),
            cs == chunk_views(chunks@),
            forall|k: int| 0 <= k < chunks@.len() ==> well_kept((#[trigger] chunks@[k])@),
            from <= lines@.len(),
            reps_fit(rep_views(reps@), lines@.len() as int),
            replacements_upto(v, path@, cs, i as int, mode) == Ok::<
                (Seq<RepView>, int),
                Seq<char>,
            >((rep_views(reps@), from as int)),
        decreases chunks@.len() - i,
    {
        proof {
            assert(cs[i as int] == chunks@[i as int]@);
        }
        match place_chunk(&mut reps, lines, path, &chunks[i], from, mode) {
            Ok(next) => {
                from = next;
            },
            Err(e) => {
                proof {
                    assert(replacements_upto(v, path@, cs, i + 1, mode) is Err);
                    lemma_replacements_stay(v, path@, cs, i + 1, cs.len() as int, mode);
                }
                return Err(e);
            },
        }
        i = i + 1;
    }
    Ok(sort_reps(reps, Ghost(lines@.len() as int)))
}

/// Makes replacements.
fn apply_replacements(lines: &[Vec<char>], reps: &[Replacement]) -> (out: Vec<Vec<char>>)
    requires
        reps_fit(rep_views(reps@), lines@.len() as int),
    ensures
        views(out@) == rebuilt(views(lines@), rep_views(reps@), 0),
{
    let ghost v = views(lines@);
    let ghost rs = rep_views(reps@);
    let mut out: Vec<Vec<char>> = Vec::new();
    let mut from: usize = 0;
    let mut i: usize = 0;
    proof {
        assert(rs.skip(0) =~= rs);
        assert(views(out@) + rebuilt(v, rs, 0) =~= rebuilt(v, rs, 0));
    }
    while i < reps.len()
        invariant
            i <= reps@.len(),
            from <= lines@.len(),
            v == views(lines@),
            rs == rep_views(reps@),
            reps_fit(rs, lines@.len() as int),
            views(out@) + rebuilt(v, rs.skip(i as int), from as int) == rebuilt(v, rs, 0),
        decreases reps@.len() - i,
    {
        let n: usize = lines.len();
        let r: &Replacement = &reps[i];
        proof {
            assert(rs[i as int] == r@);
            assert(rep_fits(rs[i as int], lines@.len() as int));
            assert(rs.skip(i as int)[0] == r@);
            assert(rs.skip(i as int).skip(1) =~= rs.skip(i + 1));
        }
        let s: usize = if r.start < from {
            from
        } else {
            r.start
        };
        let e: usize = if r.start + r.old_len < from {
            from
        } else {
            r.start + r.old_len
        };
        let ghost before = views(out@);
        let mut kept: Vec<Vec<char>> = copy_lines(lines, from, s);
        let ghost kv = views(kept@);
        let mut new: Vec<Vec<char>> = copy_lines(r.new_lines.as_slice(), 0, r.new_lines.len());
        let ghost nv = views(new@);
        out.append(&mut kept);
        proof {
            assert(views(out@) =~= before + kv);
        }
        out.append(&mut new);
        proof {
            assert(views(out@) =~= before + kv + nv);
            assert(nv =~= r@.new_lines);
            let rest = rebuilt(v, rs.skip(i + 1), e as int);
            assert(before + (kv + nv + rest) =~= (before + kv + nv) + rest);
        }
        from = e;
        i = i + 1;
    }
    let ghost before = views(out@);
    let mut tail: Vec<Vec<char>> = copy_lines(lines, from, lines.len());
    let ghost tv = views(tail@);
    out.append(&mut tail);
    proof {
        assert(rs.skip(i as int) =~= Seq::<RepView>::empty());
        assert(tv =~= v.skip(from as int));
        assert(views(out@) =~= before + tv);
    }
    out
}

/// The lines of a file with their line breaks.
fn parse_source(s: &[char]) -> (out: Vec<Vec<char>>)
    ensures
        views(out@) == raw_lines_from(s@, 0),
{
    let mut out: Vec<Vec<char>> = Vec::new();
    let n: usize = s.len();
    let mut p: usize = 0;
    proof {
        assert(views(out@) + raw_lines_from(s@, 0) =~= raw_lines_from(s@, 0));
    }
    while p < n
        invariant
            p <= n == s@.len(),
            views(out@) + raw_lines_from(s@, p as int) == raw_lines_from(s@, 0),
        decreases n - p,
    {
        let mut q: usize = p;
        let mut open: bool = true;
        while open
            invariant
                p <= q <= n == s@.len(),
                p < n,
                open ==> next_line(s@, p as int) == next_line(s@, q as int),
                !open ==> next_line(s@, p as int) == q,
            decreases (if open { 1int } else { 0 }), n - q,
        {
            if q >= n {
                open = false;
            } else if s[q] == '\r' && q + 1 < n && s[q + 1] == '\n' {
                q = q + 2;
                open = false;
            } else if s[q] == '\r' || s[q] == '\n' {
                q = q + 1;
                open = false;
            } else {
                q = q + 1;
            }
        }
        proof {
            lemma_next_line_moves(s@, p as int);
        }
        let ghost before = views(out@);
        let line: Vec<char> = slice_of(s, p, q);
        let ghost lv = line@;
        out.push(line);
        proof {
            assert(views(out@) =~= before.push(lv));
            let rest = raw_lines_from(s@, q as int);
            assert(before + (seq![lv] + rest) =~= before.push(lv) + rest);
        }
        p = q;
    }
    proof {
        assert(views(out@) + Seq::<Seq<char>>::empty() =~= views(out@));
    }
    out
}

fn text_len(l: &[char]) -> (k: usize)
    ensures
        k == line_text(l@).len(),
        k <= l@.len(),
        line_text(l@) == l@.take(k as int),
{
    let n: usize = l.len();
    if n >= 2 && l[n - 2] == '\r' && l[n - 1] == '\n' {
        n - 2
    } else if n >= 1 && (l[n - 1] == '\r' || l[n - 1] == '\n') {
        proof {
            assert(l@.drop_last() =~= l@.take(n - 1));
        }
        n - 1
    } else {
        proof {
            assert(l@ =~= l@.take(n as int));
        }
        n
    }
}

fn texts_of_lines(lines: &[Vec<char>]) -> (out: Vec<Vec<char>>)
    ensures
        views(out@) == line_texts(views(lines@)),
{
    let mut out: Vec<Vec<char>> = Vec::new();
    let mut i: usize = 0;
    while i < lines.len()
        invariant
            i <= lines@.len(),
            out@.len() == i,
            forall|k: int| 0 <= k < i ==> #[trigger] out@[k]@ == line_text(lines@[k]@),
        decreases lines@.len() - i,
    {
        let k: usize = text_len(lines[i].as_slice());
        let t: Vec<char> = slice_of(lines[i].as_slice(), 0, k);
        proof {
            assert(t@ =~= lines@[i as int]@.take(k as int));
        }
        out.push(t);
        i = i + 1;
    }
    proof {
        assert(views(out@) =~= line_texts(views(lines@)));
    }
    out
}

fn ending_of(lines: &[Vec<char>]) -> (eol: Vec<char>)
    ensures
        eol@ == preferred_ending(views(lines@)),
{
    if lines.len() > 0 {
        let k: usize = text_len(lines[0].as_slice());
        let n: usize = lines[0].len();
        proof {
            assert(views(lines@)[0] == lines@[0]@);
        }
        if k < n {
            let e: Vec<char> = slice_of(lines[0].as_slice(), k, n);
            proof {
                assert(e@ =~= line_ending(lines@[0]@));
            }
            return e;
        }
    }
    let e: Vec<char> = vec!['\n'];
    proof {
        assert(e@ =~= nl());
    }
    e
}

fn end_lines(lines: &[Vec<char>], eol: &[char]) -> (out: Vec<Vec<char>>)
    ensures
        views(out@) == ended(views(lines@), eol@),
{
    let mut out: Vec<Vec<char>> = Vec::new();
    let mut i: usize = 0;
    while i < lines.len()
        invariant
            i <= lines@.len(),
            out@.len() == i,
            forall|k: int| 0 <= k < i ==> #[trigger] out@[k]@ == lines@[k]@ + eol@,
        decreases lines@.len() - i,
    {
        let mut l: Vec<char> = slice_of(lines[i].as_slice(), 0, lines[i].len());
        extend(&mut l, eol);
        proof {
            assert(l@ =~= lines@[i as int]@ + eol@);
        }
        out.push(l);
        i = i + 1;
    }
    proof {
        assert(views(out@) =~= ended(views(lines@), eol@));
    }
    out
}

fn end_reps(reps: &[Replacement], eol: &[char], Ghost(n): Ghost<int>) -> (out: Vec<Replacement>)
    requires
        reps_fit(rep_views(reps@), n),
    ensures
        rep_views(out@) == ended_reps(rep_views(reps@), eol@),
        reps_fit(rep_views(out@), n),
{
    let ghost rs = rep_views(reps@);
    let mut out: Vec<Replacement> = Vec::new();
    let mut i: usize = 0;
    while i < reps.len()
        invariant
            i <= reps@.len(),
            rs == rep_views(reps@),
            out@.len() == i,
            forall|k: int| 0 <= k < i ==> #[trigger] out@[k]@ == ended_reps(rs, eol@)[k],
        decreases reps@.len() - i,
    {
        let r: &Replacement = &reps[i];
        let e: Replacement = Replacement {
            start: r.start,
            old_len: r.old_len,
            new_lines: end_lines(r.new_lines.as_slice(), eol),
        };
        proof {
            assert(rs[i as int] == r@);
            assert(e@ =~= ended_reps(rs, eol@)[i as int]);
        }
        out.push(e);
        i = i + 1;
    }
    proof {
        assert(rep_views(out@) =~= ended_reps(rs, eol@));
        assert forall|k: int| 0 <= k < rep_views(out@).len() implies rep_fits(
            #[trigger] rep_views(out@)[k],
            n,
        ) by {
            assert(rep_fits(rs[k], n));
        }
    }
    out
}

fn glue(lines: &[Vec<char>], eol: &[char]) -> (out: Vec<char>)
    ensures
        out@ == glued(views(lines@), eol@),
{
    let n: usize = lines.len();
    let ghost v = views(lines@);
    let mut out: Vec<char> = Vec::new();
    if n == 0 {
        proof {
            assert(out@ =~= Seq::<char>::empty());
        }
        return out;
    }
    let mut i: usize = 0;
    proof {
        assert(v.take(0) =~= Seq::<Seq<char>>::empty());
        assert(out@ =~= closed_all(v.take(0), eol@));
    }
    while i < n - 1
        invariant
            i <= n - 1,
            n == lines@.len(),
            v == views(lines@),
            out@ == closed_all(v.take(i as int), eol@),
        decreases n - 1 - i,
    {
        proof {
            assert(v[i as int] == lines@[i as int]@);
            assert(v.take(i + 1).drop_last() =~= v.take(i as int));
            assert(v.take(i + 1).last() == v[i as int]);
        }
        close_off(&mut out, lines[i].as_slice(), eol);
        i = i + 1;
    }
    proof {
        assert(v.drop_last() =~= v.take(n - 1));
        assert(v.last() == lines@[n - 1]@);
    }
    extend(&mut out, lines[n - 1].as_slice());
    out
}

/// Updates the content of a file.
pub fn derive_new_contents_from_chunks(
    path: &str,
    original_contents: String,
    chunks: &[UpdateFileChunk],
    update_file_mode: UpdateMode,
) -> (r: Result<AppliedPatch, String>)
    requires
        forall|i: int| 0 <= i < chunks@.len() ==> well_kept((#[trigger] chunks@[i])@),
    ensures
        match updated_contents(
            original_contents@,
            path@,
            chunk_views(chunks@),
            update_file_mode,
        ) {
            Ok(new) => r is Ok && r->Ok_0.new_contents@ == new && r->Ok_0.original_contents
                == original_contents,
            Err(e) => r is Err && r->Err_0@ == e,
        },
{
    match update_file_mode {
        UpdateMode::NormalizeToLf => {
            let (lf, _cr): (String, bool) = normalize_newlines(original_contents.as_str());
            let c: Vec<char> = chars_of(lf.as_str());
            let mut lines: Vec<Vec<char>> = split_lines(c.as_slice());
            proof {
                lemma_split_short(lf@);
            }
            let n: usize = count_split(lines.as_slice());
            let ghost all = views(lines@);
            if n < lines.len() {
                let last: Option<Vec<char>> = lines.pop();
                proof {
                    assert(views(lines@) =~= all.take(n as int));
                }
            } else {
                proof {
                    assert(all =~= all.take(n as int));
                }
            }
            let reps: Vec<Replacement> = match compute_replacements(
                lines.as_slice(),
                path,
                chunks,
                update_file_mode,
            ) {
                Ok(v) => v,
                Err(e) => {
                    return Err(e);
                },
            };
            let mut new_lines: Vec<Vec<char>> = apply_replacements(
                lines.as_slice(),
                reps.as_slice(),
            );
            let ghost nv = views(new_lines@);
            if !last_is_empty(new_lines.as_slice()) {
                let empty: Vec<char> = Vec::new();
                new_lines.push(empty);
                proof {
                    assert(views(new_lines@) =~= nv.push(Seq::<char>::empty()));
                }
            }
            let newline: Vec<char> = vec!['\n'];
            proof {
                assert(newline@ =~= nl());
            }
            let text: Vec<char> = join_parts(new_lines.as_slice(), newline.as_slice());
            Ok(AppliedPatch { original_contents, new_contents: string_of(text.as_slice()) })
        },
        UpdateMode::PreserveLineEndings => {
            let c: Vec<char> = chars_of(original_contents.as_str());
            let raw: Vec<Vec<char>> = parse_source(c.as_slice());
            let lines: Vec<Vec<char>> = texts_of_lines(raw.as_slice());
            proof {
                assert(lines@.len() == views(lines@).len() == raw@.len());
            }
            let reps: Vec<Replacement> = match compute_replacements(
                lines.as_slice(),
                path,
                chunks,
                update_file_mode,
            ) {
                Ok(v) => v,
                Err(e) => {
                    return Err(e);
                },
            };
            let eol: Vec<char> = ending_of(raw.as_slice());
            let ended: Vec<Replacement> = end_reps(
                reps.as_slice(),
                eol.as_slice(),
                Ghost(lines@.len() as int),
            );
            let new_lines: Vec<Vec<char>> = apply_replacements(raw.as_slice(), ended.as_slice());
            let text: Vec<char> = glue(new_lines.as_slice(), eol.as_slice());
            Ok(AppliedPatch { original_contents, new_contents: string_of(text.as_slice()) })
        },
    }
}

} // verus!
