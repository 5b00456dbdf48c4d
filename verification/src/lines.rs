//! Lines: splitting a text at newlines and putting it together again.

use vstd::prelude::*;

verus! {

/// The views of a list of character vectors.
pub open spec fn views(v: Seq<Vec<char>>) -> Seq<Seq<char>> {
    Seq::new(v.len(), |i: int| v[i]@)
}

/// The lines of `s`: a newline opens a new, empty line and any other character
/// extends the last one. A text that ends in a newline has an empty last line.
pub open spec fn split_nl(s: Seq<char>) -> Seq<Seq<char>>
    decreases s.len(),
{
    if s.len() == 0 {
        seq![Seq::<char>::empty()]
    } else {
        let before = split_nl(s.drop_last());
        if s.last() == '\n' {
            before.push(Seq::<char>::empty())
        } else {
            before.drop_last().push(before.last().push(s.last()))
        }
    }
}

/// `parts` one after another with `sep` between neighbours.
pub open spec fn join(parts: Seq<Seq<char>>, sep: Seq<char>) -> Seq<char>
    decreases parts.len(),
{
    if parts.len() == 0 {
        Seq::<char>::empty()
    } else if parts.len() == 1 {
        parts[0]
    } else {
        join(parts.drop_last(), sep) + sep + parts.last()
    }
}

/// The separator of lines.
pub open spec fn nl() -> Seq<char> {
    seq!['\n']
}

/// There is always at least one line.
pub proof fn lemma_split_nonempty(s: Seq<char>)
    ensures
        split_nl(s).len() >= 1,
        split_nl(s).len() <= s.len() + 1,
    decreases s.len(),
{
    if s.len() > 0 {
        lemma_split_nonempty(s.drop_last());
    }
}

/// Joining the lines of a text with newlines gives the text back.
pub proof fn join_undoes_split(s: Seq<char>)
    ensures
        join(split_nl(s), nl()) == s,
    decreases s.len(),
{
    if s.len() > 0 {
        let t = s.drop_last();
        let before = split_nl(t);
        join_undoes_split(t);
        lemma_split_nonempty(t);
        if s.last() == '\n' {
            let after = before.push(Seq::<char>::empty());
            assert(after.drop_last() =~= before);
            assert(join(after, nl()) =~= s);
        } else {
            let longer = before.last().push(s.last());
            let after = before.drop_last().push(longer);
            assert(after.drop_last() =~= before.drop_last());
            if before.len() == 1 {
                assert(join(after, nl()) =~= s);
            } else {
                assert(join(after, nl()) =~= join(before, nl()).push(s.last()));
                assert(s =~= t.push(s.last()));
            }
        }
    }
}

/// No line holds a newline.
pub proof fn lines_hold_no_newline(s: Seq<char>, i: int)
    requires
        0 <= i < split_nl(s).len(),
    ensures
        !split_nl(s)[i].contains('\n'),
    decreases s.len(),
{
    if s.len() > 0 {
        let before = split_nl(s.drop_last());
        lemma_split_nonempty(s.drop_last());
        if i < before.len() {
            lines_hold_no_newline(s.drop_last(), i);
        }
        if s.last() != '\n' && i == before.len() - 1 {
            let l = split_nl(s)[i];
            assert(l == before.last().push(s.last()));
            if l.contains('\n') {
                let k = choose|k: int| 0 <= k < l.len() && l[k] == '\n';
                assert(before.last()[k] == '\n');
                assert(false);
            }
        }
    }
}

/// Splits a text into its lines.
pub fn split_lines(s: &[char]) -> (out: Vec<Vec<char>>)
    ensures
        views(out@) == split_nl(s@),
        out@.len() >= 1,
{
    let mut out: Vec<Vec<char>> = Vec::new();
    let mut current: Vec<char> = Vec::new();
    let mut i: usize = 0;
    proof {
        assert(s@.take(0) =~= Seq::<char>::empty());
        assert(views(out@).push(current@) =~= split_nl(s@.take(0)));
    }
    while i < s.len()
        invariant
            i <= s@.len(),
            views(out@).push(current@) == split_nl(s@.take(i as int)),
        decreases s@.len() - i,
    {
        let c: char = s[i];
        let ghost old_out = out@;
        let ghost old_cur = current@;
        proof {
            assert(s@.take(i + 1).drop_last() =~= s@.take(i as int));
            assert(s@.take(i + 1).last() == c);
            let before = split_nl(s@.take(i as int));
            assert(before.drop_last() =~= views(old_out));
            assert(before.last() == old_cur);
        }
        if c == '\n' {
            out.push(current);
            current = Vec::new();
            proof {
                assert(views(out@) =~= views(old_out).push(old_cur));
            }
        } else {
            current.push(c);
        }
        i = i + 1;
    }
    let ghost last_out = out@;
    let ghost last_cur = current@;
    out.push(current);
    proof {
        assert(s@.take(s@.len() as int) =~= s@);
        assert(views(out@) =~= views(last_out).push(last_cur));
    }
    out
}

/// Appends a copy of `more` to `out`.
pub fn extend(out: &mut Vec<char>, more: &[char])
    ensures
        final(out)@ == old(out)@ + more@,
{
    let ghost before = out@;
    let mut i: usize = 0;
    while i < more.len()
        invariant
            i <= more@.len(),
            out@ == before + more@.take(i as int),
        decreases more@.len() - i,
    {
        out.push(more[i]);
        i = i + 1;
        proof {
            assert(more@.take(i as int) =~= more@.take(i - 1).push(more@[i - 1]));
        }
    }
    proof {
        assert(more@.take(more@.len() as int) =~= more@);
    }
}

/// Puts `parts` one after another with `sep` between neighbours.
pub fn join_parts(parts: &[Vec<char>], sep: &[char]) -> (out: Vec<char>)
    ensures
        out@ == join(views(parts@), sep@),
{
    let mut out: Vec<char> = Vec::new();
    let mut i: usize = 0;
    proof {
        assert(views(parts@).take(0) =~= Seq::<Seq<char>>::empty());
    }
    while i < parts.len()
        invariant
            i <= parts@.len(),
            out@ == join(views(parts@).take(i as int), sep@),
        decreases parts@.len() - i,
    {
        let ghost v = views(parts@);
        let ghost before = out@;
        if i > 0 {
            extend(&mut out, sep);
        }
        extend(&mut out, parts[i].as_slice());
        i = i + 1;
        proof {
            let p = v.take(i as int);
            assert(p.drop_last() =~= v.take(i - 1));
            assert(p.last() == v[i - 1]);
            if i == 1 {
                assert(before =~= Seq::<char>::empty());
                assert(out@ =~= p[0]);
            } else {
                assert(out@ =~= before + sep@ + p.last());
            }
        }
    }
    proof {
        assert(views(parts@).take(parts@.len() as int) =~= views(parts@));
    }
    out
}

/// How many characters the lines before line `i` and their newlines take up.
pub open spec fn line_offset(lines: Seq<Seq<char>>, i: int) -> nat
    decreases i,
{
    if i <= 0 {
        0
    } else {
        line_offset(lines, i - 1) + lines[i - 1].len() + 1
    }
}

proof fn lemma_offset_prefix(a: Seq<Seq<char>>, b: Seq<Seq<char>>, i: int)
    requires
        0 <= i <= a.len(),
        i <= b.len(),
        forall|k: int| 0 <= k < i ==> a[k] == b[k],
    ensures
        line_offset(a, i) == line_offset(b, i),
    decreases i,
{
    if i > 0 {
        lemma_offset_prefix(a, b, i - 1);
    }
}

/// The lines and the newlines between them make up the whole text.
pub proof fn lemma_offset_total(s: Seq<char>)
    ensures
        line_offset(split_nl(s), split_nl(s).len() as int) == s.len() + 1,
    decreases s.len(),
{
    let after = split_nl(s);
    if s.len() == 0 {
        assert(line_offset(after, 0) == 0);
        assert(line_offset(after, 1) == 1);
    } else {
        let t = s.drop_last();
        let before = split_nl(t);
        lemma_offset_total(t);
        lemma_split_nonempty(t);
        let n = before.len() as int;
        if s.last() == '\n' {
            lemma_offset_prefix(after, before, n);
            assert(after[n].len() == 0);
            assert(line_offset(after, n + 1) == line_offset(after, n) + after[n].len() + 1);
        } else {
            lemma_offset_prefix(after, before, n - 1);
            assert(after.len() == n);
            assert(line_offset(after, n) == line_offset(after, n - 1) + after[n - 1].len() + 1);
            assert(line_offset(before, n) == line_offset(before, n - 1) + before[n - 1].len() + 1);
        }
    }
}

/// Line offsets grow with the line number.
pub proof fn lemma_offset_monotone(lines: Seq<Seq<char>>, i: int, j: int)
    requires
        0 <= i <= j,
    ensures
        line_offset(lines, i) + (j - i) <= line_offset(lines, j),
    decreases j - i,
{
    if i < j {
        lemma_offset_monotone(lines, i, j - 1);
    }
}

/// Line `i` of a text is what stands at its offset.
pub proof fn lemma_line_at_offset(s: Seq<char>, i: int)
    requires
        0 <= i < split_nl(s).len(),
    ensures
        ({
            let lines = split_nl(s);
            let at = line_offset(lines, i) as int;
            &&& at + lines[i].len() <= s.len()
            &&& s.subrange(at, at + lines[i].len()) == lines[i]
            &&& i + 1 < lines.len() ==> at + lines[i].len() < s.len() && s[(at + lines[i].len()) as int] == '\n'
            &&& i + 1 == lines.len() ==> at + lines[i].len() == s.len()
        }),
    decreases s.len(),
{
    let lines = split_nl(s);
    lemma_offset_total(s);
    lemma_offset_monotone(lines, i + 1, lines.len() as int);
    let at = line_offset(lines, i) as int;
    assert(line_offset(lines, i + 1) == at + lines[i].len() + 1);
    if s.len() == 0 {
        assert(s.subrange(at, at + lines[i].len()) =~= lines[i]);
    } else {
        let t = s.drop_last();
        let before = split_nl(t);
        lemma_split_nonempty(t);
        let n = before.len() as int;
        if i < n {
            lemma_line_at_offset(t, i);
            lemma_offset_prefix(lines, before, i);
            let b = before[i];
            assert(t.subrange(at, at + b.len()) =~= s.subrange(at, at + b.len()));
            if s.last() != '\n' && i == n - 1 {
                assert(lines[i] == b.push(s.last()));
                assert(s.subrange(at, at + lines[i].len()) =~= lines[i]);
            } else {
                assert(lines[i] == b);
                if i + 1 < n {
                    assert(s[(at + b.len()) as int] == t[(at + b.len()) as int]);
                }
            }
        } else {
            assert(lines[i].len() == 0);
            assert(s.subrange(at, at + lines[i].len()) =~= lines[i]);
        }
    }
}

/// A text has at most one line more than it has characters.
pub proof fn lemma_split_short(s: Seq<char>)
    ensures
        1 <= split_nl(s).len() <= s.len() + 1,
    decreases s.len(),
{
    lemma_split_nonempty(s);
    if s.len() > 0 {
        lemma_split_short(s.drop_last());
    }
}

} // verus!
