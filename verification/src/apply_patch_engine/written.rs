//! Patches as they are written, and that they are read as they were meant.

use vstd::prelude::*;

use crate::apply_patch_engine::parser::{
    add_end, added_text, behind, body_end, body_of, bounded_lines, boundary_error, empty_chunk,
    environment_of, head_of, hunk_at, hunks_of, in_heredoc, is_change_line, move_target, parsed,
    patch_lines, with_line, without_cr, Body, ChunkView, Head, HunkView,
};
use crate::lines::{join, join_undoes_split, lemma_split_nonempty, lines_hold_no_newline, nl, split_nl};
use crate::search::{at, ends};
use crate::text::{is_blank, is_ws, leading_ws, trim, trim_end, trim_start};

verus! {

/// A change as it is meant: the context that it follows, its lines with their marks, and
/// whether it ends the file.
pub struct WrittenChange {
    pub context: Option<Seq<char>>,
    pub lines: Seq<(char, Seq<char>)>,
    pub eof: bool,
}

/// A hunk as it is meant.
pub enum WrittenHunk {
    Add { path: Seq<char>, lines: Seq<Seq<char>> },
    Delete { path: Seq<char> },
    Update { path: Seq<char>, target: Option<Seq<char>>, changes: Seq<WrittenChange> },
}

/// The first lines of a change, with their marks.
pub open spec fn chunk_upto(c: WrittenChange, n: int) -> ChunkView
    decreases n,
{
    if n <= 0 {
        empty_chunk(c.context)
    } else {
        with_line(chunk_upto(c, n - 1), c.lines[n - 1].0, c.lines[n - 1].1)
    }
}

/// What a change means.
pub open spec fn chunk_of(c: WrittenChange) -> ChunkView {
    let all = chunk_upto(c, c.lines.len() as int);
    if c.eof {
        ChunkView { eof: true, ..all }
    } else {
        all
    }
}

/// Lines, each with a newline behind it.
pub open spec fn text_of(lines: Seq<Seq<char>>) -> Seq<char>
    decreases lines.len(),
{
    if lines.len() == 0 {
        Seq::<char>::empty()
    } else {
        text_of(lines.drop_last()) + lines.last() + nl()
    }
}

/// What a hunk means.
pub open spec fn meaning(h: WrittenHunk) -> HunkView {
    match h {
        WrittenHunk::Add { path, lines } => HunkView::AddFile { path, contents: text_of(lines) },
        WrittenHunk::Delete { path } => HunkView::DeleteFile { path },
        WrittenHunk::Update { path, target, changes } => HunkView::UpdateFile {
            path,
            move_path: target,
            chunks: Seq::new(changes.len(), |i: int| chunk_of(changes[i])),
        },
    }
}

/// The line that a change starts with.
pub open spec fn change_head(c: WrittenChange) -> Seq<char> {
    match c.context {
        None => "@@"@,
        Some(ctx) => "@@ "@ + ctx,
    }
}

/// The lines of a change.
pub open spec fn change_lines(c: WrittenChange) -> Seq<Seq<char>> {
    seq![change_head(c)] + Seq::new(c.lines.len(), |i: int| seq![c.lines[i].0] + c.lines[i].1) + (
    if c.eof {
        seq!["*** End of File"@]
    } else {
        Seq::<Seq<char>>::empty()
    })
}

/// The lines of the first `n` changes.
pub open spec fn changes_lines(changes: Seq<WrittenChange>, n: int) -> Seq<Seq<char>>
    decreases n,
{
    if n <= 0 {
        Seq::<Seq<char>>::empty()
    } else {
        changes_lines(changes, n - 1) + change_lines(changes[n - 1])
    }
}

/// The lines of a hunk.
pub open spec fn hunk_lines(h: WrittenHunk) -> Seq<Seq<char>> {
    match h {
        WrittenHunk::Add { path, lines } => seq!["*** Add File: "@ + path] + Seq::new(
            lines.len(),
            |i: int| seq!['+'] + lines[i],
        ),
        WrittenHunk::Delete { path } => seq!["*** Delete File: "@ + path],
        WrittenHunk::Update { path, target, changes } => seq!["*** Update File: "@ + path] + (
        match target {
            Some(t) => seq!["*** Move to: "@ + t],
            None => Seq::<Seq<char>>::empty(),
        }) + changes_lines(changes, changes.len() as int),
    }
}

/// The lines of the hunks from `i` on.
pub open spec fn hunks_lines(hunks: Seq<WrittenHunk>, i: int) -> Seq<Seq<char>>
    decreases hunks.len() - i,
{
    if i < 0 || i >= hunks.len() {
        Seq::<Seq<char>>::empty()
    } else {
        hunk_lines(hunks[i]) + hunks_lines(hunks, i + 1)
    }
}

/// A patch as it is written.
pub open spec fn patch_text(hunks: Seq<WrittenHunk>) -> Seq<char> {
    join(seq!["*** Begin Patch"@] + hunks_lines(hunks, 0) + seq!["*** End Patch"@], nl())
}

/// A text that stands on one line.
pub open spec fn on_one_line(s: Seq<char>) -> bool {
    !s.contains('\n') && (s.len() == 0 || s.last() != '\r')
}

/// A path that can be written: on one line, and with no white space at its end.
pub open spec fn writable_path(path: Seq<char>) -> bool {
    path.len() > 0 && !is_ws(path.last()) && on_one_line(path)
}

/// A change that can be written.
pub open spec fn writable_change(c: WrittenChange) -> bool {
    &&& c.context matches Some(ctx) ==> !is_blank(ctx) && on_one_line(ctx)
    &&& forall|i: int|
        0 <= i < c.lines.len() ==> {
            let l = #[trigger] c.lines[i];
            (l.0 == ' ' || l.0 == '+' || l.0 == '-') && on_one_line(l.1)
        }
}

/// A hunk that can be written: an added file has lines, and only the last change of an
/// update ends the file.
pub open spec fn writable(h: WrittenHunk) -> bool {
    match h {
        WrittenHunk::Add { path, lines } => {
            &&& writable_path(path)
            &&& lines.len() > 0
            &&& forall|i: int| 0 <= i < lines.len() ==> on_one_line(#[trigger] lines[i])
        },
        WrittenHunk::Delete { path } => writable_path(path),
        WrittenHunk::Update { path, target, changes } => {
            &&& writable_path(path)
            &&& target matches Some(t) ==> writable_path(t)
            &&& forall|i: int|
                0 <= i < changes.len() ==> writable_change(#[trigger] changes[i]) && (changes[i].eof
                    ==> i == changes.len() - 1)
        },
    }
}

proof fn lemma_trimmed(s: Seq<char>)
    requires
        s.len() > 0,
        !is_ws(s[0]),
    ensures
        trim_start(s) == s,
        trim(s) == trim_end(s),
        !is_blank(s),
        !is_ws(s.last()) ==> trim(s) == s,
{
    assert(leading_ws(s) == 0);
    assert(s.skip(0) =~= s);
}

proof fn lemma_trim_end_starts(s: Seq<char>)
    ensures
        trim_end(s).len() <= s.len(),
        trim_end(s) == s.take(trim_end(s).len() as int),
        forall|i: int| trim_end(s).len() <= i < s.len() ==> is_ws(#[trigger] s[i]),
    decreases s.len(),
{
    if s.len() > 0 && is_ws(s.last()) {
        let t = s.drop_last();
        lemma_trim_end_starts(t);
        assert(t.take(trim_end(t).len() as int) =~= s.take(trim_end(t).len() as int));
        assert forall|i: int| trim_end(s).len() <= i < s.len() implies is_ws(#[trigger] s[i]) by {
            if i < t.len() {
                assert(t[i] == s[i]);
            }
        }
    } else {
        assert(s.take(s.len() as int) =~= s);
    }
}

/// A line that starts with `c` is no line of the grammar that starts with another
/// character.
proof fn lemma_no_prefix(s: Seq<char>, p: Seq<char>)
    requires
        s.len() == 0 || p.len() == 0 || s[0] != p[0],
        p.len() > 0,
    ensures
        !at(s, p, 0),
        behind(s, p) is None,
        s != p,
{
    if at(s, p, 0) {
        assert(s.subrange(0, p.len() as int)[0] == s[0]);
    }
}

proof fn lemma_prefix(p: Seq<char>, rest: Seq<char>)
    ensures
        at(p + rest, p, 0),
        behind(p + rest, p) == Some(rest),
{
    assert((p + rest).subrange(0, p.len() as int) =~= p);
    assert((p + rest).skip(p.len() as int) =~= rest);
}

proof fn lemma_differ(s: Seq<char>, p: Seq<char>, k: int)
    requires
        0 <= k < p.len(),
        k < s.len() ==> s[k] != p[k],
    ensures
        behind(s, p) is None,
        s != p,
{
    if at(s, p, 0) {
        assert(s.subrange(0, p.len() as int)[k] == s[k]);
    }
}

/// The heads of hunks are read as they are written.
proof fn lemma_heads(path: Seq<char>)
    requires
        writable_path(path),
    ensures
        head_of("*** Add File: "@ + path) == Some(Head::Add(path)),
        head_of("*** Delete File: "@ + path) == Some(Head::Delete(path)),
        head_of("*** Update File: "@ + path) == Some(Head::Update(path)),
        behind(trim("*** Move to: "@ + path), "*** Move to: "@) == Some(path),
{
    reveal_strlit("*** Add File: ");
    reveal_strlit("*** Delete File: ");
    reveal_strlit("*** Update File: ");
    reveal_strlit("*** Move to: ");
    let a = "*** Add File: "@ + path;
    let d = "*** Delete File: "@ + path;
    let u = "*** Update File: "@ + path;
    let m = "*** Move to: "@ + path;
    lemma_trimmed(a);
    lemma_trimmed(d);
    lemma_trimmed(u);
    lemma_trimmed(m);
    lemma_prefix("*** Add File: "@, path);
    lemma_prefix("*** Delete File: "@, path);
    lemma_prefix("*** Update File: "@, path);
    lemma_prefix("*** Move to: "@, path);
    lemma_differ(d, "*** Add File: "@, 4);
    lemma_differ(u, "*** Add File: "@, 4);
    lemma_differ(u, "*** Delete File: "@, 4);
}

/// A line that opens a hunk is no blank line, no line of a change, and moves no file.
spec fn opens(line: Seq<char>) -> bool {
    &&& head_of(line) is Some
    &&& !is_change_line(line)
    &&& !is_blank(line)
    &&& behind(trim(line), "*** Move to: "@) is None
    &&& behind(trim(line), "*** Environment ID: "@) is None
    &&& line.len() > 0
    &&& line[0] == '*'
}

proof fn lemma_hunk_opens(h: WrittenHunk)
    requires
        writable(h),
    ensures
        hunk_lines(h).len() > 0,
        opens(hunk_lines(h)[0]),
{
    reveal_strlit("*** Add File: ");
    reveal_strlit("*** Delete File: ");
    reveal_strlit("*** Update File: ");
    reveal_strlit("*** Move to: ");
    reveal_strlit("*** Environment ID: ");
    let path = match h {
        WrittenHunk::Add { path, .. } => path,
        WrittenHunk::Delete { path } => path,
        WrittenHunk::Update { path, .. } => path,
    };
    lemma_heads(path);
    let line = hunk_lines(h)[0];
    lemma_trimmed(line);
    lemma_differ(line, "*** Move to: "@, 4);
    lemma_differ(line, "*** Environment ID: "@, 4);
}

/// No line of a change opens a hunk or moves the file.
proof fn lemma_change_line(c: WrittenChange, t: int)
    requires
        writable_change(c),
        0 <= t < change_lines(c).len(),
    ensures
        is_change_line(change_lines(c)[t]) || head_of(change_lines(c)[t]) is None,
        t == 0 ==> behind(trim(change_lines(c)[0]), "*** Move to: "@) is None,
{
    reveal_strlit("*** Add File: ");
    reveal_strlit("*** Delete File: ");
    reveal_strlit("*** Update File: ");
    reveal_strlit("*** Move to: ");
    reveal_strlit("*** End of File");
    reveal_strlit("@@");
    reveal_strlit("@@ ");
    let line = change_lines(c)[t];
    if t == 0 {
        lemma_trimmed(line);
        lemma_trim_end_starts(line);
        let s = trim(line);
        if s.len() > 0 {
            assert(s[0] == line[0]);
        }
        lemma_no_prefix(s, "*** Add File: "@);
        lemma_no_prefix(s, "*** Delete File: "@);
        lemma_no_prefix(s, "*** Update File: "@);
        lemma_no_prefix(s, "*** Move to: "@);
    } else if t <= c.lines.len() {
        assert(line == seq![c.lines[t - 1].0] + c.lines[t - 1].1);
        assert(line[0] == c.lines[t - 1].0);
    } else {
        assert(line == "*** End of File"@);
        lemma_trimmed(line);
        lemma_differ(line, "*** Add File: "@, 4);
        lemma_differ(line, "*** Delete File: "@, 4);
        lemma_differ(line, "*** Update File: "@, 4);
    }
}

/// `part` stands in `lines` from `i` on.
spec fn stands(lines: Seq<Seq<char>>, part: Seq<Seq<char>>, i: int) -> bool {
    0 <= i && i + part.len() <= lines.len() && forall|t: int|
        0 <= t < part.len() ==> lines[i + t] == #[trigger] part[t]
}

/// A change is read as it is meant, behind those before it.
proof fn lemma_change_read(
    lines: Seq<Seq<char>>,
    from: int,
    p: int,
    c: WrittenChange,
    before: Seq<ChunkView>,
    n: int,
)
    requires
        writable_change(c),
        0 <= from <= p,
        stands(lines, change_lines(c), p),
        body_of(lines, from, p) == Ok::<Body, (int, Seq<char>)>(
            Body { chunks: before, closed: false },
        ),
        0 <= n <= c.lines.len(),
    ensures
        body_of(lines, from, p + 1 + n) == Ok::<Body, (int, Seq<char>)>(
            Body { chunks: before.push(chunk_upto(c, n)), closed: false },
        ),
    decreases n,
{
    reveal_strlit("@@");
    reveal_strlit("@@ ");
    let part = change_lines(c);
    assert(lines[p + n] == part[n]);
    let line = lines[p + n];
    lemma_trim_end_starts(line);
    if n == 0 {
        assert(line == change_head(c));
        match c.context {
            None => {
                assert(trim_end(line) =~= "@@"@);
            },
            Some(ctx) => {
                lemma_prefix("@@ "@, ctx);
                let k = choose|k: int| 0 <= k < ctx.len() && !is_ws(#[trigger] ctx[k]);
                assert(line[3 + k] == ctx[k]);
                assert(trim_end(line).len() > 3 + k);
            },
        }
    } else {
        lemma_change_read(lines, from, p, c, before, n - 1);
        let (mark, text) = c.lines[n - 1];
        assert(line == seq![mark] + text);
        assert(line.skip(1) =~= text);
        assert(line[0] == mark);
        lemma_no_prefix(line, "@@ "@);
        if trim_end(line).len() > 0 {
            assert(trim_end(line)[0] == line[0]);
        }
        lemma_no_prefix(trim_end(line), "@@"@);
        let earlier = before.push(chunk_upto(c, n - 1));
        assert(earlier.drop_last() =~= before);
        assert(earlier.last() == chunk_upto(c, n - 1));
    }
}

proof fn lemma_change_read_whole(
    lines: Seq<Seq<char>>,
    from: int,
    p: int,
    c: WrittenChange,
    before: Seq<ChunkView>,
)
    requires
        writable_change(c),
        0 <= from <= p,
        stands(lines, change_lines(c), p),
        body_of(lines, from, p) == Ok::<Body, (int, Seq<char>)>(
            Body { chunks: before, closed: false },
        ),
    ensures
        body_of(lines, from, p + change_lines(c).len()) == Ok::<Body, (int, Seq<char>)>(
            Body { chunks: before.push(chunk_of(c)), closed: c.eof },
        ),
{
    let n = c.lines.len() as int;
    lemma_change_read(lines, from, p, c, before, n);
    if c.eof {
        reveal_strlit("*** End of File");
        reveal_strlit("@@");
        reveal_strlit("@@ ");
        let part = change_lines(c);
        assert(part[n + 1] == "*** End of File"@);
        let line = lines[p + (n + 1)];
        assert(line == part[n + 1]);
        lemma_trimmed(line);
        lemma_trim_end_starts(line);
        lemma_no_prefix(line, "@@ "@);
        lemma_no_prefix(trim_end(line), "@@"@);
        let earlier = before.push(chunk_upto(c, n));
        assert(earlier.drop_last() =~= before);
        assert(part.len() == n + 2);
    } else {
        assert(change_lines(c).len() == n + 1);
    }
}

proof fn lemma_stands_part(
    lines: Seq<Seq<char>>,
    a: Seq<Seq<char>>,
    b: Seq<Seq<char>>,
    i: int,
)
    requires
        stands(lines, a + b, i),
    ensures
        stands(lines, a, i),
        stands(lines, b, i + a.len()),
{
    assert forall|t: int| 0 <= t < a.len() implies lines[i + t] == #[trigger] a[t] by {
        assert((a + b)[t] == a[t]);
    }
    assert forall|t: int| 0 <= t < b.len() implies lines[i + a.len() + t] == #[trigger] b[t] by {
        assert((a + b)[a.len() + t] == b[t]);
    }
}

proof fn lemma_changes_read(
    lines: Seq<Seq<char>>,
    from: int,
    changes: Seq<WrittenChange>,
    n: int,
)
    requires
        0 <= n <= changes.len(),
        0 <= from,
        forall|i: int|
            0 <= i < changes.len() ==> writable_change(#[trigger] changes[i]) && (changes[i].eof
                ==> i == changes.len() - 1),
        stands(lines, changes_lines(changes, n), from),
    ensures
        body_of(lines, from, from + changes_lines(changes, n).len()) == Ok::<
            Body,
            (int, Seq<char>),
        >(
            Body {
                chunks: Seq::new(n as nat, |i: int| chunk_of(changes[i])),
                closed: n > 0 && changes[n - 1].eof,
            },
        ),
    decreases n,
{
    let chunks = Seq::new(n as nat, |i: int| chunk_of(changes[i]));
    if n == 0 {
        assert(chunks =~= Seq::<ChunkView>::empty());
    } else {
        let front = changes_lines(changes, n - 1);
        let c = changes[n - 1];
        lemma_stands_part(lines, front, change_lines(c), from);
        lemma_changes_read(lines, from, changes, n - 1);
        if n > 1 {
            assert(!changes[n - 2].eof);
        }
        let before = Seq::new((n - 1) as nat, |i: int| chunk_of(changes[i]));
        lemma_change_read_whole(lines, from, from + front.len(), c, before);
        assert(before.push(chunk_of(c)) =~= chunks);
    }
}

/// Every line of the changes belongs to the update.
proof fn lemma_changes_stay(changes: Seq<WrittenChange>, n: int, t: int)
    requires
        0 <= n <= changes.len(),
        forall|i: int| 0 <= i < changes.len() ==> writable_change(#[trigger] changes[i]),
        0 <= t < changes_lines(changes, n).len(),
    ensures
        is_change_line(changes_lines(changes, n)[t]) || head_of(changes_lines(changes, n)[t]) is None,
        t == 0 ==> behind(trim(changes_lines(changes, n)[0]), "*** Move to: "@) is None,
    decreases n,
{
    let front = changes_lines(changes, n - 1);
    let c = changes[n - 1];
    if t < front.len() {
        lemma_changes_stay(changes, n - 1, t);
    } else {
        lemma_change_line(c, t - front.len());
    }
}

proof fn lemma_body_end(lines: Seq<Seq<char>>, part: Seq<Seq<char>>, i: int, end: int)
    requires
        stands(lines, part, i),
        i + part.len() <= end <= lines.len(),
        forall|t: int|
            0 <= t < part.len() ==> is_change_line(#[trigger] part[t]) || head_of(part[t]) is None,
        i + part.len() == end || opens(lines[i + part.len()]),
    ensures
        body_end(lines, i, end) == i + part.len(),
    decreases part.len(),
{
    if part.len() > 0 {
        assert(lines[i + 0] == part[0]);
        let rest = part.skip(1);
        assert forall|t: int| 0 <= t < rest.len() implies lines[i + 1 + t] == #[trigger] rest[t] by {
            assert(rest[t] == part[t + 1]);
            assert(lines[i + (t + 1)] == part[t + 1]);
        }
        assert forall|t: int| 0 <= t < rest.len() implies is_change_line(#[trigger] rest[t])
            || head_of(rest[t]) is None by {
            assert(rest[t] == part[t + 1]);
        }
        lemma_body_end(lines, rest, i + 1, end);
    }
}

proof fn lemma_added(lines: Seq<Seq<char>>, texts: Seq<Seq<char>>, i: int, end: int, n: int)
    requires
        stands(lines, Seq::new(texts.len(), |k: int| seq!['+'] + texts[k]), i),
        i + texts.len() <= end <= lines.len(),
        i + texts.len() == end || opens(lines[i + texts.len()]),
        0 <= n <= texts.len(),
    ensures
        add_end(lines, i + n, end) == i + texts.len(),
        added_text(lines, i, i + n) == text_of(texts.take(n)),
    decreases texts.len() - n, n,
{
    let part = Seq::new(texts.len(), |k: int| seq!['+'] + texts[k]);
    if n < texts.len() {
        assert(lines[i + n] == part[n]);
        assert(lines[i + n][0] == '+');
        lemma_added(lines, texts, i, end, n + 1);
    }
    lemma_added_text(lines, texts, i, n);
}

proof fn lemma_added_text(lines: Seq<Seq<char>>, texts: Seq<Seq<char>>, i: int, n: int)
    requires
        stands(lines, Seq::new(texts.len(), |k: int| seq!['+'] + texts[k]), i),
        0 <= n <= texts.len(),
    ensures
        added_text(lines, i, i + n) == text_of(texts.take(n)),
    decreases n,
{
    let part = Seq::new(texts.len(), |k: int| seq!['+'] + texts[k]);
    if n > 0 {
        lemma_added_text(lines, texts, i, n - 1);
        assert(lines[i + (n - 1)] == part[n - 1]);
        assert(lines[i + n - 1].skip(1) =~= texts[n - 1]);
        assert(texts.take(n).drop_last() =~= texts.take(n - 1));
        assert(texts.take(n).last() == texts[n - 1]);
    }
}

/// A hunk is read as it is meant.
proof fn lemma_hunk_read(lines: Seq<Seq<char>>, h: WrittenHunk, i: int, end: int)
    requires
        writable(h),
        stands(lines, hunk_lines(h), i),
        i + hunk_lines(h).len() <= end <= lines.len(),
        i + hunk_lines(h).len() == end || opens(lines[i + hunk_lines(h).len()]),
    ensures
        hunk_at(lines, i, end) == Ok::<(HunkView, int), (int, Seq<char>)>(
            (meaning(h), i + hunk_lines(h).len()),
        ),
{
    let part = hunk_lines(h);
    assert(lines[i + 0] == part[0]);
    match h {
        WrittenHunk::Add { path, lines: texts } => {
            lemma_heads(path);
            let plus = Seq::new(texts.len(), |k: int| seq!['+'] + texts[k]);
            lemma_stands_part(lines, seq!["*** Add File: "@ + path], plus, i);
            lemma_added(lines, texts, i + 1, end, 0);
            lemma_added_text(lines, texts, i + 1, texts.len() as int);
            assert(texts.take(texts.len() as int) =~= texts);
        },
        WrittenHunk::Delete { path } => {
            lemma_heads(path);
        },
        WrittenHunk::Update { path, target, changes } => {
            lemma_heads(path);
            let n = changes.len() as int;
            let body = changes_lines(changes, n);
            let head = seq!["*** Update File: "@ + path];
            let moved = match target {
                Some(t) => seq!["*** Move to: "@ + t],
                None => Seq::<Seq<char>>::empty(),
            };
            lemma_stands_part(lines, head + moved, body, i);
            lemma_stands_part(lines, head, moved, i);
            let from = i + 1 + moved.len();
            match target {
                Some(t) => {
                    lemma_heads(t);
                    assert(lines[i + 1 + 0] == moved[0]);
                },
                None => {
                    if i + 1 < end {
                        if n > 0 && body.len() > 0 {
                            lemma_changes_stay(changes, n, 0);
                            assert(lines[from + 0] == body[0]);
                        } else {
                            assert(lines[i + 1] == lines[i + part.len()]);
                        }
                    }
                },
            }
            assert(move_target(lines, i + 1, end) == target);
            assert forall|t: int| 0 <= t < body.len() implies is_change_line(#[trigger] body[t])
                || head_of(body[t]) is None by {
                lemma_changes_stay(changes, n, t);
            }
            lemma_body_end(lines, body, from, end);
            lemma_changes_read(lines, from, changes, n);
            assert(Seq::new(n as nat, |k: int| chunk_of(changes[k])) =~= Seq::new(
                changes.len(),
                |k: int| chunk_of(changes[k]),
            ));
        },
    }
}

/// What the hunks from `i` on mean.
pub open spec fn meanings(hunks: Seq<WrittenHunk>, i: int) -> Seq<HunkView> {
    Seq::new((hunks.len() - i) as nat, |k: int| meaning(hunks[i + k]))
}

proof fn lemma_hunks_read(
    lines: Seq<Seq<char>>,
    hunks: Seq<WrittenHunk>,
    k: int,
    i: int,
    end: int,
)
    requires
        forall|m: int| 0 <= m < hunks.len() ==> writable(#[trigger] hunks[m]),
        0 <= k <= hunks.len(),
        stands(lines, hunks_lines(hunks, k), i),
        end == i + hunks_lines(hunks, k).len(),
    ensures
        hunks_of(lines, i, end) == Ok::<Seq<HunkView>, (int, Seq<char>)>(meanings(hunks, k)),
    decreases hunks.len() - k,
{
    if k == hunks.len() {
        assert(meanings(hunks, k) =~= Seq::<HunkView>::empty());
    } else {
        let h = hunks[k];
        let part = hunk_lines(h);
        let rest = hunks_lines(hunks, k + 1);
        lemma_stands_part(lines, part, rest, i);
        lemma_hunk_opens(h);
        assert(lines[i + 0] == part[0]);
        if k + 1 < hunks.len() {
            let next = hunks[k + 1];
            lemma_hunk_opens(next);
            assert(rest[0] == hunk_lines(next)[0]);
            assert(lines[i + part.len() + 0] == rest[0]);
        }
        lemma_hunk_read(lines, h, i, end);
        lemma_hunks_read(lines, hunks, k + 1, i + part.len(), end);
        assert(seq![meaning(h)] + meanings(hunks, k + 1) =~= meanings(hunks, k));
    }
}

/// Lines that are put together with newlines are the lines of the text.
proof fn lemma_split_undoes_join(lines: Seq<Seq<char>>)
    requires
        lines.len() > 0,
        forall|i: int| 0 <= i < lines.len() ==> !(#[trigger] lines[i]).contains('\n'),
    ensures
        split_nl(join(lines, nl())) == lines,
    decreases lines.len(),
{
    if lines.len() == 1 {
        lemma_split_line(Seq::<char>::empty(), lines[0]);
        assert(Seq::<char>::empty() + lines[0] =~= lines[0]);
        assert(split_nl(Seq::<char>::empty()) =~= seq![Seq::<char>::empty()]);
        assert(Seq::<Seq<char>>::empty().push(Seq::<char>::empty() + lines[0]) =~= lines);
        assert(seq![Seq::<char>::empty()].drop_last() =~= Seq::<Seq<char>>::empty());
    } else {
        let front = lines.drop_last();
        assert forall|i: int| 0 <= i < front.len() implies !(#[trigger] front[i]).contains('\n') by {
            assert(front[i] == lines[i]);
        }
        lemma_split_undoes_join(front);
        let a = join(front, nl());
        let b = a + nl();
        assert(b.drop_last() =~= a);
        assert(b.last() == '\n');
        let split = front.push(Seq::<char>::empty());
        assert(split_nl(b) == split);
        assert(!lines[lines.len() - 1].contains('\n'));
        lemma_split_line(b, lines.last());
        assert(split.drop_last() =~= front);
        assert(Seq::<char>::empty() + lines.last() =~= lines.last());
        assert(front.push(lines.last()) =~= lines);
    }
}

/// Text without a newline extends the last line.
proof fn lemma_split_line(a: Seq<char>, l: Seq<char>)
    requires
        !l.contains('\n'),
    ensures
        split_nl(a + l) == split_nl(a).drop_last().push(split_nl(a).last() + l),
    decreases l.len(),
{
    lemma_split_nonempty(a);
    let s = split_nl(a);
    if l.len() == 0 {
        assert(a + l =~= a);
        assert(s.last() + l =~= s.last());
        assert(s.drop_last().push(s.last()) =~= s);
    } else {
        let front = l.drop_last();
        assert forall|i: int| 0 <= i < front.len() implies front[i] != '\n' by {
            assert(l.contains(l[i]));
        }
        lemma_split_line(a, front);
        assert((a + l).drop_last() =~= a + front);
        assert((a + l).last() == l.last());
        assert(l.contains(l.last()));
        let before = s.drop_last().push(s.last() + front);
        assert(before.drop_last() =~= s.drop_last());
        assert((s.last() + front).push(l.last()) =~= s.last() + l);
    }
}

spec fn all_on_one_line(lines: Seq<Seq<char>>) -> bool {
    forall|i: int| 0 <= i < lines.len() ==> on_one_line(#[trigger] lines[i])
}

proof fn lemma_two_parts(a: Seq<char>, b: Seq<char>)
    requires
        !a.contains('\n'),
        on_one_line(b),
        b.len() > 0 || a.len() == 0 || a.last() != '\r',
    ensures
        on_one_line(a + b),
{
    if (a + b).contains('\n') {
        let k = choose|k: int| 0 <= k < (a + b).len() && (a + b)[k] == '\n';
        if k < a.len() {
            assert(a[k] == '\n');
        } else {
            assert(b[k - a.len()] == '\n');
        }
        assert(false);
    }
    if b.len() > 0 {
        assert((a + b).last() == b.last());
    } else {
        assert(a + b =~= a);
    }
}

proof fn lemma_both_on_one_line(a: Seq<Seq<char>>, b: Seq<Seq<char>>)
    requires
        all_on_one_line(a),
        all_on_one_line(b),
    ensures
        all_on_one_line(a + b),
{
    assert forall|i: int| 0 <= i < (a + b).len() implies on_one_line(#[trigger] (a + b)[i]) by {
        if i < a.len() {
            assert(on_one_line(a[i]));
        } else {
            assert(on_one_line(b[i - a.len()]));
        }
    }
}

proof fn lemma_change_on_one_line(c: WrittenChange)
    requires
        writable_change(c),
    ensures
        all_on_one_line(change_lines(c)),
{
    reveal_strlit("*** End of File");
    reveal_strlit("@@");
    reveal_strlit("@@ ");
    let lines = change_lines(c);
    assert forall|t: int| 0 <= t < lines.len() implies on_one_line(#[trigger] lines[t]) by {
        if t == 0 {
            match c.context {
                None => {},
                Some(ctx) => {
                    lemma_two_parts("@@ "@, ctx);
                },
            }
        } else if t <= c.lines.len() {
            let l = c.lines[t - 1];
            assert(lines[t] == seq![l.0] + l.1);
            lemma_two_parts(seq![l.0], l.1);
        } else {
            assert(lines[t] == "*** End of File"@);
        }
    }
}

proof fn lemma_changes_on_one_line(changes: Seq<WrittenChange>, n: int)
    requires
        0 <= n <= changes.len(),
        forall|i: int| 0 <= i < changes.len() ==> writable_change(#[trigger] changes[i]),
    ensures
        all_on_one_line(changes_lines(changes, n)),
    decreases n,
{
    if n > 0 {
        lemma_changes_on_one_line(changes, n - 1);
        lemma_change_on_one_line(changes[n - 1]);
        lemma_both_on_one_line(changes_lines(changes, n - 1), change_lines(changes[n - 1]));
    }
}

proof fn lemma_hunk_on_one_line(h: WrittenHunk)
    requires
        writable(h),
    ensures
        all_on_one_line(hunk_lines(h)),
{
    reveal_strlit("*** Add File: ");
    reveal_strlit("*** Delete File: ");
    reveal_strlit("*** Update File: ");
    reveal_strlit("*** Move to: ");
    match h {
        WrittenHunk::Add { path, lines } => {
            lemma_two_parts("*** Add File: "@, path);
            let plus = Seq::new(lines.len(), |i: int| seq!['+'] + lines[i]);
            assert forall|t: int| 0 <= t < plus.len() implies on_one_line(#[trigger] plus[t]) by {
                assert(on_one_line(lines[t]));
                lemma_two_parts(seq!['+'], lines[t]);
            }
            lemma_both_on_one_line(seq!["*** Add File: "@ + path], plus);
        },
        WrittenHunk::Delete { path } => {
            lemma_two_parts("*** Delete File: "@, path);
        },
        WrittenHunk::Update { path, target, changes } => {
            lemma_two_parts("*** Update File: "@, path);
            let head = seq!["*** Update File: "@ + path];
            let moved = match target {
                Some(t) => seq!["*** Move to: "@ + t],
                None => Seq::<Seq<char>>::empty(),
            };
            if let Some(t) = target {
                lemma_two_parts("*** Move to: "@, t);
            }
            lemma_both_on_one_line(head, moved);
            lemma_changes_on_one_line(changes, changes.len() as int);
            lemma_both_on_one_line(head + moved, changes_lines(changes, changes.len() as int));
        },
    }
}

proof fn lemma_hunks_on_one_line(hunks: Seq<WrittenHunk>, i: int)
    requires
        0 <= i <= hunks.len(),
        forall|m: int| 0 <= m < hunks.len() ==> writable(#[trigger] hunks[m]),
    ensures
        all_on_one_line(hunks_lines(hunks, i)),
    decreases hunks.len() - i,
{
    if i < hunks.len() {
        lemma_hunk_on_one_line(hunks[i]);
        lemma_hunks_on_one_line(hunks, i + 1);
        lemma_both_on_one_line(hunk_lines(hunks[i]), hunks_lines(hunks, i + 1));
    }
}

proof fn lemma_join_ends(lines: Seq<Seq<char>>)
    requires
        lines.len() > 0,
        lines[0].len() > 0,
        lines.last().len() > 0,
    ensures
        join(lines, nl()).len() > 0,
        join(lines, nl())[0] == lines[0][0],
        join(lines, nl()).last() == lines.last().last(),
    decreases lines.len(),
{
    if lines.len() > 1 {
        let front = lines.drop_last();
        lemma_join_starts(front);
        assert(front[0] == lines[0]);
    }
}

proof fn lemma_join_starts(lines: Seq<Seq<char>>)
    requires
        lines.len() > 0,
        lines[0].len() > 0,
    ensures
        join(lines, nl()).len() > 0,
        join(lines, nl())[0] == lines[0][0],
    decreases lines.len(),
{
    if lines.len() > 1 {
        lemma_join_starts(lines.drop_last());
    }
}

/// A patch that is written by the grammar is read as it was meant: the same hunks, in the
/// same order, with the same lines.
pub proof fn written_patches_are_read_back(hunks: Seq<WrittenHunk>)
    requires
        forall|i: int| 0 <= i < hunks.len() ==> writable(#[trigger] hunks[i]),
    ensures
        parsed(patch_text(hunks)) matches Ok(p) && p.1 == meanings(hunks, 0) && p.2 is None,
{
    reveal_strlit("*** Begin Patch");
    reveal_strlit("*** End Patch");
    reveal_strlit("*** Environment ID: ");
    let inner = hunks_lines(hunks, 0);
    let first = seq!["*** Begin Patch"@];
    let last = seq!["*** End Patch"@];
    let lines = first + inner + last;
    let text = patch_text(hunks);
    lemma_hunks_on_one_line(hunks, 0);
    assert(all_on_one_line(first)) by {
        assert(on_one_line("*** Begin Patch"@));
    }
    assert(all_on_one_line(last)) by {
        assert(on_one_line("*** End Patch"@));
    }
    lemma_both_on_one_line(first, inner);
    lemma_both_on_one_line(first + inner, last);
    assert forall|i: int| 0 <= i < lines.len() implies !(#[trigger] lines[i]).contains('\n') by {
        assert(on_one_line(lines[i]));
    }
    lemma_split_undoes_join(lines);
    assert(lines.last() == "*** End Patch"@);
    lemma_join_ends(lines);
    lemma_trimmed(text);
    assert(patch_lines(text) =~= lines) by {
        assert forall|i: int| 0 <= i < lines.len() implies without_cr(#[trigger] lines[i]) == lines[i] by {
            assert(on_one_line(lines[i]));
        }
    }
    lemma_trimmed("*** Begin Patch"@);
    lemma_trimmed("*** End Patch"@);
    assert(boundary_error(lines) is None);
    assert(bounded_lines(lines) == Ok::<Seq<Seq<char>>, Seq<char>>(lines));
    let end: int = 1 + inner.len() as int;
    assert(stands(lines, inner, 1)) by {
        assert forall|t: int| 0 <= t < inner.len() implies lines[1 + t] == #[trigger] inner[t] by {}
    }
    if hunks.len() > 0 {
        lemma_hunk_opens(hunks[0]);
        assert(inner[0] == hunk_lines(hunks[0])[0]);
        assert(lines[1] == inner[0]);
    }
    assert(environment_of(lines) is None);
    lemma_hunks_read(lines, hunks, 0, 1, end);
}

/// A line that opens a here-document.
pub open spec fn opens_heredoc(line: Seq<char>) -> bool {
    line == "<<EOF"@ || line == "<<'EOF'"@ || line == "<<\"EOF\""@
}

/// A text in a here-document.
pub open spec fn heredoc(opener: Seq<char>, text: Seq<char>) -> Seq<char> {
    opener + nl() + text + nl() + "EOF"@
}

proof fn lemma_join_head(first: Seq<char>, lines: Seq<Seq<char>>)
    requires
        lines.len() > 0,
    ensures
        join(seq![first] + lines, nl()) == first + nl() + join(lines, nl()),
    decreases lines.len(),
{
    let all = seq![first] + lines;
    if lines.len() == 1 {
        assert(all.drop_last() =~= seq![first]);
        assert(join(seq![first], nl()) == first);
    } else {
        lemma_join_head(first, lines.drop_last());
        assert(all.drop_last() =~= seq![first] + lines.drop_last());
        assert(join(all, nl()) =~= first + nl() + join(lines, nl()));
    }
}

/// A patch that stands in a here-document says what it says alone, and is refused as it is
/// alone, whichever way the here-document is opened.
pub proof fn heredoc_changes_nothing(opener: Seq<char>, patch: Seq<char>)
    requires
        opens_heredoc(opener),
        boundary_error(patch_lines(patch)) is None || (patch_lines(patch).len() >= 2
            && !in_heredoc(patch_lines(patch))),
    ensures
        parsed(heredoc(opener, trim(patch))) == parsed(patch),
{
    reveal_strlit("<<EOF");
    reveal_strlit("<<'EOF'");
    reveal_strlit("<<\"EOF\"");
    reveal_strlit("EOF");
    reveal_strlit("*** Begin Patch");
    reveal_strlit("*** End Patch");
    let bare = patch_lines(patch);
    if boundary_error(bare) is None {
        assert("*** Begin Patch"@.len() != "*** End Patch"@.len());
        if opens_heredoc(bare[0]) {
            lemma_trimmed(bare[0]);
        }
    }
    assert(bare.len() >= 2);
    let t = trim(patch);
    let inner = split_nl(t);
    let text = heredoc(opener, t);
    let last = "EOF"@;
    let lines = (seq![opener] + inner).push(last);
    join_undoes_split(t);
    lemma_join_head(opener, inner);
    assert(lines.drop_last() =~= seq![opener] + inner);
    assert(text =~= join(lines, nl()));
    assert forall|i: int| 0 <= i < lines.len() implies !(#[trigger] lines[i]).contains('\n') by {
        if 0 < i <= inner.len() {
            lines_hold_no_newline(t, i - 1);
        }
    }
    lemma_split_undoes_join(lines);
    lemma_trimmed(text);
    lemma_trimmed(opener);
    assert(patch_lines(text) =~= (seq![opener] + bare).push(last));
    assert(patch_lines(text).subrange(1, patch_lines(text).len() - 1) =~= bare);
    assert(opener[0] == '<' && "*** Begin Patch"@[0] == '*');
    assert(last.subrange(0, last.len() as int) =~= last);
    assert(ends(last, last));
    assert(in_heredoc(patch_lines(text)));
}

} // verus!
