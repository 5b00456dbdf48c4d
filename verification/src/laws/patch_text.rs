//! What holds of every text that is read as a patch.

use vstd::prelude::*;

use crate::apply_patch_engine::parser::{
    add_end, added_text, behind, body_step, boundary_error, bounded_lines, empty_chunk,
    environment_of, head_of, hunk_at, parsed, patch_lines, with_line, Body, ChunkView, Head,
    HunkView, ParseErrorView,
};
use crate::lines::{nl, split_nl};
use crate::search::at;
use crate::text::{is_blank, trim, trim_end};

verus! {

/// A patch begins and ends with its own lines, white space aside: a text that does not, and
/// stands in no here-document, is no patch.
pub proof fn patch_has_its_first_and_last_line(patch: Seq<char>)
    requires
        ({
            let lines = patch_lines(patch);
            lines.len() > 0 ==> lines[0] != "<<EOF"@ && lines[0] != "<<'EOF'"@ && lines[0]
                != "<<\"EOF\""@
        }),
    ensures
        ({
            let lines = patch_lines(patch);
            &&& lines.len() == 0 ==> (parsed(patch) matches Err(e) && e is InvalidPatchError)
            &&& lines.len() > 0 && trim(lines[0]) != "*** Begin Patch"@ ==> (parsed(
                patch,
            ) matches Err(e) && e is InvalidPatchError)
            &&& lines.len() > 0 && trim(lines.last()) != "*** End Patch"@ ==> (parsed(
                patch,
            ) matches Err(e) && e is InvalidPatchError)
            &&& lines.len() > 0 && trim(lines[0]) == "*** Begin Patch"@ && trim(lines.last())
                == "*** End Patch"@ ==> bounded_lines(lines) == Ok::<Seq<Seq<char>>, Seq<char>>(
                lines,
            )
        }),
{
}

/// The lines of a patch are those of its text without white space at its ends, each without
/// the carriage return at its end.
pub proof fn patch_lines_have_no_carriage_return(patch: Seq<char>, i: int)
    requires
        trim(patch).len() > 0,
        0 <= i < split_nl(trim(patch)).len(),
    ensures
        patch_lines(patch).len() == split_nl(trim(patch)).len(),
        ({
            let l = split_nl(trim(patch))[i];
            &&& l.len() > 0 && l.last() == '\r' ==> patch_lines(patch)[i] == l.drop_last()
            &&& l.len() == 0 || l.last() != '\r' ==> patch_lines(patch)[i] == l
        }),
{
}

/// Behind the first line comes a hunk of a file, or the environment's name and then a hunk; a
/// line that opens neither is an error, and its number is told.
pub proof fn hunks_follow_the_first_line(patch: Seq<char>)
    ensures
        ({
            let lines = patch_lines(patch);
            let ok = boundary_error(lines) is None;
            &&& ok && lines.len() > 2 && behind(trim(lines[1]), "*** Environment ID: "@) is None
                && !is_blank(lines[1]) && head_of(lines[1]) is None ==> (parsed(patch) matches Err(
                e,
            ) && e matches ParseErrorView::InvalidHunkError { line_number, .. } && line_number == 2)
            &&& ok && lines.len() > 2 ==> (behind(
                trim(lines[1]),
                "*** Environment ID: "@,
            ) matches Some(id) ==> (parsed(patch) matches Ok(p) ==> p.2 == Some(id)))
            &&& ok && lines.len() > 2 && behind(trim(lines[1]), "*** Environment ID: "@) is None ==> (
            parsed(patch) matches Ok(p) ==> p.2 is None)
            &&& parsed(patch) matches Ok(p) ==> (ok ==> p.0 == lines)
        }),
{
    let lines = patch_lines(patch);
    if boundary_error(lines) is None && lines.len() > 2 && environment_of(lines) is None
        && !is_blank(lines[1]) && head_of(lines[1]) is None {
        assert(hunk_at(lines, 1, lines.len() - 1) is Err);
    }
}

/// The line that opens a hunk names what it does and the file.
pub proof fn headings_open_hunks(line: Seq<char>, p: Seq<char>)
    ensures
        trim(line) == "*** Add File: "@ + p ==> head_of(line) == Some(Head::Add(p)),
        trim(line) == "*** Delete File: "@ + p ==> head_of(line) == Some(Head::Delete(p)),
        trim(line) == "*** Update File: "@ + p ==> head_of(line) == Some(Head::Update(p)),
        head_of(line) matches Some(Head::Add(q)) ==> trim(line) == "*** Add File: "@ + q,
        head_of(line) matches Some(Head::Delete(q)) ==> trim(line) == "*** Delete File: "@ + q,
        head_of(line) matches Some(Head::Update(q)) ==> trim(line) == "*** Update File: "@ + q,
{
    reveal_strlit("*** Add File: ");
    reveal_strlit("*** Delete File: ");
    reveal_strlit("*** Update File: ");
    let t = trim(line);
    assert("*** Add File: "@[4] == 'A' && "*** Update File: "@[4] == 'U');
    assert("*** Delete File: "@[4] == 'D');
    lemma_behind(t, "*** Add File: "@, p);
    lemma_behind(t, "*** Delete File: "@, p);
    lemma_behind(t, "*** Update File: "@, p);
    let q = match head_of(line) {
        Some(Head::Add(q)) => q,
        Some(Head::Delete(q)) => q,
        Some(Head::Update(q)) => q,
        None => p,
    };
    lemma_behind(t, "*** Add File: "@, q);
    lemma_behind(t, "*** Delete File: "@, q);
    lemma_behind(t, "*** Update File: "@, q);
}

proof fn lemma_behind(t: Seq<char>, prefix: Seq<char>, p: Seq<char>)
    requires
        prefix.len() > 4,
    ensures
        t == prefix + p ==> behind(t, prefix) == Some(p),
        behind(t, prefix) == Some(p) ==> t == prefix + p,
        behind(t, prefix) is Some ==> t.len() > 4 && t[4] == prefix[4],
{
    let n = prefix.len() as int;
    if t == prefix + p {
        assert(t.subrange(0, n) =~= prefix);
        assert(t.skip(n) =~= p);
    }
    if behind(t, prefix) == Some(p) {
        assert(t =~= t.subrange(0, n) + t.skip(n));
    }
    if behind(t, prefix) is Some {
        assert(t.subrange(0, n)[4] == t[4]);
    }
}

/// A hunk does what its heading says: a new file holds its added lines, without their marks and
/// each with a newline, and needs one; a deletion is its heading alone; an update goes on to
/// the next heading and moves the file only where the next line says so.
pub proof fn hunks_are_read_by_their_heading(lines: Seq<Seq<char>>, i: int, end: int)
    requires
        0 <= i < end <= lines.len(),
    ensures
        head_of(lines[i]) is None ==> hunk_at(lines, i, end) is Err,
        head_of(lines[i]) matches Some(Head::Delete(p)) ==> hunk_at(lines, i, end) == Ok::<
            (HunkView, int),
            (int, Seq<char>),
        >((HunkView::DeleteFile { path: p }, i + 1)),
        head_of(lines[i]) matches Some(Head::Add(p)) ==> {
            &&& (i + 1 >= end || lines[i + 1].len() == 0 || lines[i + 1][0] != '+') ==> hunk_at(
                lines,
                i,
                end,
            ) is Err
            &&& hunk_at(lines, i, end) matches Ok(h) ==> h.0 == (HunkView::AddFile {
                path: p,
                contents: added_text(lines, i + 1, h.1),
            }) && forall|k: int|
                i < k < h.1 ==> (#[trigger] lines[k]).len() > 0 && lines[k][0] == '+'
        },
        head_of(lines[i]) matches Some(Head::Update(p)) ==> (hunk_at(lines, i, end) matches Ok(h)
            ==> (h.0 matches HunkView::UpdateFile { path, move_path, .. } && path == p && (i + 1
            < end ==> move_path == behind(trim(lines[i + 1]), "*** Move to: "@)))),
{
    lemma_add_end(lines, i + 1, end);
}

proof fn lemma_add_end(lines: Seq<Seq<char>>, i: int, end: int)
    requires
        0 <= i <= end <= lines.len(),
    ensures
        i <= add_end(lines, i, end) <= end,
        forall|k: int|
            i <= k < add_end(lines, i, end) ==> (#[trigger] lines[k]).len() > 0 && lines[k][0]
                == '+',
        add_end(lines, i, end) < end ==> lines[add_end(lines, i, end)].len() == 0 || lines[add_end(
            lines,
            i,
            end,
        )][0] != '+',
    decreases end - i,
{
    if i < end && lines[i].len() > 0 && lines[i][0] == '+' {
        lemma_add_end(lines, i + 1, end);
    }
}

/// The text of added lines: each without its mark and with a newline, one behind the other.
pub proof fn added_lines_lose_their_marks(lines: Seq<Seq<char>>, i: int, j: int)
    requires
        0 <= i <= j < lines.len(),
    ensures
        added_text(lines, i, i).len() == 0,
        added_text(lines, i, j + 1) == added_text(lines, i, j) + lines[j].skip(1) + nl(),
{
}

/// A line of a change goes by its mark: a plus adds, a minus takes out, and a space keeps, in
/// its place on both sides.
pub proof fn marks_add_take_out_or_keep(c: ChunkView, text: Seq<char>)
    ensures
        ({
            let d = with_line(c, '+', text);
            &&& d.new_lines == c.new_lines.push(text)
            &&& d.old_lines == c.old_lines && d.kept == c.kept
        }),
        ({
            let d = with_line(c, '-', text);
            &&& d.old_lines == c.old_lines.push(text)
            &&& d.new_lines == c.new_lines && d.kept == c.kept
        }),
        ({
            let d = with_line(c, ' ', text);
            &&& d.old_lines == c.old_lines.push(text)
            &&& d.new_lines == c.new_lines.push(text)
            &&& d.kept == c.kept.push((c.old_lines.len() as int, c.new_lines.len() as int))
        }),
        forall|mark: char|
            (#[trigger] with_line(c, mark, text)).context == c.context && with_line(
                c,
                mark,
                text,
            ).eof == c.eof,
{
}

/// The lines of an update: `@@` begins a change, with the line behind it as its context; a
/// marked line belongs to the last change; `*** End of File` ends the file there, and only
/// blank lines may follow it; any other line is wrong.
pub proof fn update_lines_are_read_by_their_marks(b: Body, line: Seq<char>, text: Seq<char>)
    requires
        !b.closed,
        b.chunks.len() > 0,
    ensures
        ({
            let front = b.chunks.drop_last();
            let last = b.chunks.last();
            &&& line == "@@"@ ==> body_step(b, line) == Ok::<Body, Seq<char>>(
                Body { chunks: b.chunks.push(empty_chunk(None)), closed: false },
            )
            &&& line == "@@ "@ + text && !is_blank(text) ==> body_step(b, line) == Ok::<
                Body,
                Seq<char>,
            >(Body { chunks: b.chunks.push(empty_chunk(Some(text))), closed: false })
            &&& line == seq!['+'] + text ==> body_step(b, line) == Ok::<Body, Seq<char>>(
                Body { chunks: front.push(with_line(last, '+', text)), closed: false },
            )
            &&& line == seq!['-'] + text ==> body_step(b, line) == Ok::<Body, Seq<char>>(
                Body { chunks: front.push(with_line(last, '-', text)), closed: false },
            )
            &&& line == "*** End of File"@ ==> body_step(b, line) == Ok::<Body, Seq<char>>(
                Body { chunks: front.push(ChunkView { eof: true, ..last }), closed: true },
            )
            &&& line.len() > 0 && line[0] != ' ' && line[0] != '+' && line[0] != '-' && line[0]
                != '@' && trim(line) != "*** End of File"@ ==> body_step(b, line) is Err
        }),
        ({
            let c = Body { closed: true, ..b };
            &&& is_blank(text) ==> body_step(c, text) == Ok::<Body, Seq<char>>(c)
            &&& !is_blank(text) ==> body_step(c, text) is Err
        }),
{
    reveal_strlit("@@");
    reveal_strlit("@@ ");
    reveal_strlit("*** End of File");
    crate::laws::text::trimmed_end_is_all_white(line);
    let t = trim_end(line);
    let end = "*** End of File"@;
    if line.len() > 0 {
        assert(t.len() > 0 ==> t[0] == line[0]) by {
            if t.len() > 0 {
                assert(line.take(t.len() as int)[0] == line[0]);
            }
        }
        assert(at(line, "@@ "@, 0) ==> line[0] == '@') by {
            if at(line, "@@ "@, 0) {
                assert(line.subrange(0, 3)[0] == line[0]);
            }
        }
    }
    assert("@@"@[0] == '@');
    if line == "@@"@ {
        assert(!crate::text::is_ws(line.last()));
        assert(trim_end(line) == line);
    }
    if line == "@@ "@ + text && !is_blank(text) {
        assert(line.subrange(0, 3) =~= "@@ "@);
        assert(line.skip(3) =~= text);
        if t == "@@"@ {
            assert forall|i: int| 0 <= i < text.len() implies crate::text::is_ws(
                #[trigger] text[i],
            ) by {
                assert(line.skip(2)[i + 1] == text[i]);
            }
        }
    }
    if line == seq!['+'] + text {
        assert(line[0] == '+');
        assert(line.skip(1) =~= text);
    }
    if line == seq!['-'] + text {
        assert(line[0] == '-');
        assert(line.skip(1) =~= text);
    }
    if line == end {
        assert(end[0] == '*');
        let k = crate::laws::text::trimmed_text_has_solid_ends(end);
        assert(k == 0) by {
            if k > 0 {
                assert(end.take(k)[0] == end[0]);
                assert(crate::text::is_ws(end[0]));
            }
        }
        let n = trim(end).len() as int;
        assert(n == end.len()) by {
            if n < end.len() {
                let back = end.skip(n);
                assert(back[back.len() - 1] == end[end.len() - 1]);
                assert(end[end.len() - 1] == 'e');
            }
        }
        assert(trim(end) =~= end);
    }
}

/// An empty line inside a change is an empty line that stays; before its first line it means
/// nothing. Lines before any `@@` make up a first change of their own.
pub proof fn empty_lines_stay_inside_a_change(b: Body, text: Seq<char>)
    requires
        !b.closed,
    ensures
        ({
            let none = Seq::<char>::empty();
            &&& b.chunks.len() == 0 ==> body_step(b, none) == Ok::<Body, Seq<char>>(b)
            &&& b.chunks.len() > 0 ==> {
                let last = b.chunks.last();
                &&& last.old_lines.len() + last.new_lines.len() == 0 ==> body_step(b, none) == Ok::<
                    Body,
                    Seq<char>,
                >(b)
                &&& last.old_lines.len() + last.new_lines.len() > 0 ==> body_step(b, none) == Ok::<
                    Body,
                    Seq<char>,
                >(
                    Body {
                        chunks: b.chunks.drop_last().push(with_line(last, ' ', none)),
                        closed: false,
                    },
                )
            }
            &&& b.chunks.len() == 0 ==> body_step(b, seq!['+'] + text) == Ok::<Body, Seq<char>>(
                Body { chunks: seq![with_line(empty_chunk(None), '+', text)], closed: false },
            )
        }),
{
    reveal_strlit("@@");
    reveal_strlit("@@ ");
    reveal_strlit("*** End of File");
    let none = Seq::<char>::empty();
    crate::laws::text::trimmed_end_is_all_white(none);
    assert(trim_end(none).len() == 0);
    let k = crate::laws::text::trimmed_text_has_solid_ends(none);
    assert(trim(none).len() == 0);
    let line = seq!['+'] + text;
    crate::laws::text::trimmed_end_is_all_white(line);
    let t = trim_end(line);
    assert(t.len() > 0 ==> t[0] == line[0]) by {
        if t.len() > 0 {
            assert(line.take(t.len() as int)[0] == line[0]);
        }
    }
    assert("@@"@[0] == '@');
    if at(line, "@@ "@, 0) {
        assert(line.subrange(0, 3)[0] == line[0]);
        assert("@@ "@[0] == '@');
    }
    assert(line.skip(1) =~= text);
    if b.chunks.len() == 0 {
        let one = seq![empty_chunk(None)];
        assert(one.drop_last().push(with_line(one.last(), '+', text)) =~= seq![
            with_line(empty_chunk(None), '+', text),
        ]);
    }
}

/// A change that is begun has nothing in it but its context.
pub proof fn change_begins_empty(context: Option<Seq<char>>)
    ensures
        ({
            let c = empty_chunk(context);
            &&& c.context == context
            &&& c.old_lines.len() == 0 && c.new_lines.len() == 0 && c.kept.len() == 0
            &&& !c.eof
        }),
{
}

} // verus!
