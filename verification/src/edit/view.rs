//! A file as the locator sees it: its characters, its lines, and where each
//! line starts.

use vstd::prelude::*;
use vstd::utf8::encode_utf8;

use crate::format::{
    byte_len, byte_len_is_utf8_length, byte_length, lemma_byte_len_concat, lemma_byte_len_prefix,
    lemma_encode_concat,
};
use crate::lines::{
    lemma_line_at_offset, lemma_offset_monotone, lemma_offset_total, line_offset, split_lines, split_nl,
    views,
};
use crate::text::chars_of;

verus! {

/// Where line `i` of the text starts, in characters; the line after the last
/// starts where the text ends.
pub open spec fn start_of(s: Seq<char>, i: int) -> int {
    if i < split_nl(s).len() {
        line_offset(split_nl(s), i) as int
    } else {
        s.len() as int
    }
}

/// Where line `i` of the text starts, in bytes; the line after the last starts where the
/// text ends.
pub open spec fn byte_start_of(s: Seq<char>, i: int) -> nat {
    byte_len(s.take(start_of(s, i)))
}

/// The characters of a text with its lines and their starts, in bytes and in characters.
pub struct FileView {
    pub content: Vec<char>,
    pub lines: Vec<Vec<char>>,
    pub byte_starts: Vec<usize>,
    pub char_starts: Vec<usize>,
}

/// Line starts are within the text and in order.
pub proof fn lemma_start_order(s: Seq<char>, i: int, j: int)
    requires
        0 <= i <= j <= split_nl(s).len(),
    ensures
        0 <= start_of(s, i) <= start_of(s, j) <= s.len(),
{
    let lines = split_nl(s);
    lemma_offset_total(s);
    if i < lines.len() {
        lemma_offset_monotone(lines, i, lines.len() as int);
    }
    if j < lines.len() {
        lemma_offset_monotone(lines, i, j);
        lemma_offset_monotone(lines, j, lines.len() as int);
    }
}

/// The first line starts where the text does, and the line after the last where it ends.
pub proof fn lines_span_the_text(s: Seq<char>)
    ensures
        start_of(s, 0) == 0,
        byte_start_of(s, 0) == 0,
        start_of(s, split_nl(s).len() as int) == s.len(),
        byte_start_of(s, split_nl(s).len() as int) == byte_len(s),
{
    assert(s.take(0) =~= Seq::<char>::empty());
    assert(s.take(s.len() as int) =~= s);
    lemma_start_order(s, 0, 0);
    assert(split_nl(s).len() > 0 ==> line_offset(split_nl(s), 0) == 0);
}

/// The bytes of the text that start where a line does are those of the line.
pub proof fn line_stands_at_its_byte_start(s: Seq<char>, i: int)
    requires
        0 <= i < split_nl(s).len(),
    ensures
        byte_start_of(s, i) + byte_len(split_nl(s)[i]) <= encode_utf8(s).len(),
        encode_utf8(s).subrange(
            byte_start_of(s, i) as int,
            (byte_start_of(s, i) + byte_len(split_nl(s)[i])) as int,
        ) == encode_utf8(split_nl(s)[i]),
{
    let line = split_nl(s)[i];
    let at = start_of(s, i);
    lemma_line_at_offset(s, i);
    let front = s.take(at);
    let back = s.skip(at + line.len());
    assert(s =~= front + line + back);
    lemma_encode_concat(front + line, back);
    lemma_encode_concat(front, line);
    byte_len_is_utf8_length(front);
    byte_len_is_utf8_length(line);
    let (a, b, c) = (encode_utf8(front), encode_utf8(line), encode_utf8(back));
    assert(encode_utf8(s) == a + b + c);
    assert((a + b + c).subrange(a.len() as int, (a.len() + b.len()) as int) =~= b);
}

impl FileView {
    /// The lines and their starts are those of the content.
    pub open spec fn wf(&self) -> bool {
        &&& views(self.lines@) == split_nl(self.content@)
        &&& self.lines@.len() >= 1
        &&& self.char_starts@.len() == self.lines@.len() + 1
        &&& forall|i: int|
            0 <= i <= self.lines@.len() ==> #[trigger] self.char_starts@[i] == start_of(
                self.content@,
                i,
            )
        &&& self.byte_starts@.len() == self.lines@.len() + 1
        &&& forall|i: int|
            0 <= i <= self.lines@.len() ==> #[trigger] self.byte_starts@[i] == byte_start_of(
                self.content@,
                i,
            )
    }

    /// The lines of the file.
    pub open spec fn all(&self) -> Seq<Seq<char>> {
        split_nl(self.content@)
    }

    /// The view of a text.
    pub fn new(content: &str) -> (v: FileView)
        ensures
            v.wf(),
            v.content@ == content@,
    {
        let bytes: usize = content.as_bytes().len();
        proof {
            byte_len_is_utf8_length(content@);
        }
        let chars: Vec<char> = chars_of(content);
        FileView::of_chars(chars, bytes)
    }

    fn of_chars(content: Vec<char>, bytes: usize) -> (v: FileView)
        requires
            bytes == byte_len(content@),
        ensures
            v.wf(),
            v.content@ == content@,
    {
        let lines: Vec<Vec<char>> = split_lines(content.as_slice());
        let mut char_starts: Vec<usize> = Vec::new();
        let mut byte_starts: Vec<usize> = Vec::new();
        let mut at: usize = 0;
        let mut byte_at: usize = 0;
        let mut i: usize = 0;
        let total: usize = content.len();
        let ghost all = split_nl(content@);
        proof {
            assert(all.len() == views(lines@).len());
            assert(content@.take(0) =~= Seq::<char>::empty());
            assert(content@.take(total as int) =~= content@);
        }
        while i < lines.len()
            invariant
                i <= lines@.len(),
                all == split_nl(content@),
                views(lines@) == all,
                total == content@.len(),
                bytes == byte_len(content@),
                content@.take(total as int) == content@,
                char_starts@.len() == i,
                byte_starts@.len() == i,
                i < lines@.len() ==> at == line_offset(all, i as int),
                i < lines@.len() ==> byte_at == byte_len(content@.take(at as int)),
                forall|k: int| 0 <= k < i ==> #[trigger] char_starts@[k] == start_of(content@, k),
                forall|k: int|
                    0 <= k < i ==> #[trigger] byte_starts@[k] == byte_start_of(content@, k),
            decreases lines@.len() - i,
        {
            char_starts.push(at);
            byte_starts.push(byte_at);
            proof {
                lemma_line_at_offset(content@, i as int);
                assert(all[i as int] == lines@[i as int]@);
            }
            if i + 1 < lines.len() {
                let width: u128 = byte_length(lines[i].as_slice());
                proof {
                    let end = at + lines@[i as int].len();
                    let line = all[i as int];
                    assert(line_offset(all, i + 1) == line_offset(all, i as int) + all[i as int].len()
                        + 1);
                    assert(content@.take(end) =~= content@.take(at as int) + line);
                    lemma_byte_len_concat(content@.take(at as int), line);
                    assert(content@.take(end + 1).drop_last() =~= content@.take(end));
                    assert(content@.take(end + 1).last() == '\n');
                    lemma_byte_len_prefix(content@, end + 1, total as int);
                }
                byte_at = byte_at + width as usize + 1;
                at = at + lines[i].len() + 1;
            }
            i = i + 1;
        }
        char_starts.push(total);
        byte_starts.push(bytes);
        FileView { content, lines, byte_starts, char_starts }
    }

    /// The characters of the `win` lines from line `s` on, newlines included.
    pub fn char_range(&self, s: usize, win: usize) -> (r: (usize, usize))
        requires
            self.wf(),
            s + win <= self.lines@.len(),
        ensures
            r.0 == start_of(self.content@, s as int),
            r.1 == start_of(self.content@, s + win),
            r.0 <= r.1 <= self.content@.len(),
    {
        let n: usize = self.lines.len();
        proof {
            assert(s + win <= n);
            lemma_start_order(self.content@, s as int, s + win);
        }
        (self.char_starts[s], self.char_starts[s + win])
    }

    /// The number of characters.
    pub fn char_len(&self) -> (n: usize)
        ensures
            n == self.content@.len(),
    {
        self.content.len()
    }
}

} // verus!
