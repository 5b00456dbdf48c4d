//! Finding lines by content, in four tiers: as they are, but for white space at the
//! end, but for white space at either end, and with typographic characters taken for
//! plain ones.

use vstd::prelude::*;

use crate::apply_patch_engine::file_update::UpdateMode;
use crate::json::texts;
use crate::lines::views;
use crate::search::same;
use crate::text::{
    chars_of, lemma_trim_ignores_end, slice_of, trim, trim_end, trim_end_of, trim_of,
};

verus! {

/// The plain character for a typographic one.
pub open spec fn plain_char(c: char) -> char {
    let n = c as u32;
    if 0x2010 <= n <= 0x2015 || n == 0x2212 {
        '-'
    } else if 0x2018 <= n <= 0x201B {
        '\''
    } else if 0x201C <= n <= 0x201F {
        '"'
    } else if n == 0xA0 || 0x2002 <= n <= 0x200A || n == 0x202F || n == 0x205F || n == 0x3000 {
        ' '
    } else {
        c
    }
}

/// A line without white space at either end, in plain characters.
pub open spec fn normalised(s: Seq<char>) -> Seq<char> {
    Seq::new(trim(s).len(), |i: int| plain_char(trim(s)[i]))
}

/// What a tier compares of a line.
pub open spec fn seen_at(tier: int, s: Seq<char>) -> Seq<char> {
    if tier <= 0 {
        s
    } else if tier == 1 {
        trim_end(s)
    } else if tier == 2 {
        trim(s)
    } else {
        normalised(s)
    }
}

/// Whether the lines from `i` on are those of the pattern, as far as a tier looks.
pub open spec fn match_at(lines: Seq<Seq<char>>, pat: Seq<Seq<char>>, i: int, tier: int) -> bool {
    &&& 0 <= i
    &&& i + pat.len() <= lines.len()
    &&& forall|k: int|
        0 <= k < pat.len() ==> seen_at(tier, lines[i + k]) == seen_at(tier, #[trigger] pat[k])
}

/// The first place from `i` on where a tier finds the pattern.
pub open spec fn first_match(
    lines: Seq<Seq<char>>,
    pat: Seq<Seq<char>>,
    i: int,
    tier: int,
) -> Option<int>
    decreases lines.len() - i,
{
    if i < 0 || i + pat.len() > lines.len() {
        None
    } else if match_at(lines, pat, i, tier) {
        Some(i)
    } else if i >= lines.len() {
        None
    } else {
        first_match(lines, pat, i + 1, tier)
    }
}

/// Where a search starts: at the end of the file, when the pattern ends it.
pub open spec fn search_start(
    lines: Seq<Seq<char>>,
    pat: Seq<Seq<char>>,
    start: int,
    eof: bool,
    mode: UpdateMode,
) -> int {
    let last = lines.len() - pat.len();
    if !eof {
        start
    } else if mode == UpdateMode::NormalizeToLf {
        last
    } else if last >= start {
        last
    } else {
        start
    }
}

/// The first tier from `tier` on that finds the pattern decides where it is.
pub open spec fn tiered(lines: Seq<Seq<char>>, pat: Seq<Seq<char>>, i: int, tier: int) -> Option<int>
    decreases 4 - tier,
{
    if tier >= 4 {
        None
    } else {
        match first_match(lines, pat, i, tier) {
            Some(p) => Some(p),
            None => tiered(lines, pat, i, tier + 1),
        }
    }
}

/// Where a pattern is found.
pub open spec fn sought(
    lines: Seq<Seq<char>>,
    pat: Seq<Seq<char>>,
    start: int,
    eof: bool,
    mode: UpdateMode,
) -> Option<int> {
    if pat.len() == 0 {
        Some(start)
    } else if pat.len() > lines.len() {
        None
    } else {
        tiered(lines, pat, search_start(lines, pat, start, eof, mode), 0)
    }
}

fn plain(c: char) -> (r: char)
    ensures
        r == plain_char(c),
{
    let n: u32 = c as u32;
    if (0x2010 <= n && n <= 0x2015) || n == 0x2212 {
        '-'
    } else if 0x2018 <= n && n <= 0x201B {
        '\''
    } else if 0x201C <= n && n <= 0x201F {
        '"'
    } else if n == 0xA0 || (0x2002 <= n && n <= 0x200A) || n == 0x202F || n == 0x205F || n == 0x3000 {
        ' '
    } else {
        c
    }
}

fn normalise(s: &[char]) -> (out: Vec<char>)
    ensures
        out@ == normalised(s@),
{
    let t: Vec<char> = trim_of(s);
    let mut out: Vec<char> = Vec::new();
    let mut i: usize = 0;
    while i < t.len()
        invariant
            i <= t@.len(),
            t@ == trim(s@),
            out@.len() == i,
            forall|k: int| 0 <= k < i ==> #[trigger] out@[k] == plain_char(t@[k]),
        decreases t@.len() - i,
    {
        out.push(plain(t[i]));
        i = i + 1;
    }
    proof {
        assert(out@ =~= normalised(s@));
    }
    out
}

fn look(tier: usize, s: &[char]) -> (out: Vec<char>)
    ensures
        out@ == seen_at(tier as int, s@),
{
    if tier == 0 {
        let out: Vec<char> = slice_of(s, 0, s.len());
        proof {
            assert(out@ =~= s@);
        }
        out
    } else if tier == 1 {
        trim_end_of(s)
    } else if tier == 2 {
        trim_of(s)
    } else {
        normalise(s)
    }
}

fn look_all(tier: usize, lines: &[Vec<char>]) -> (out: Vec<Vec<char>>)
    ensures
        out@.len() == lines@.len(),
        forall|i: int|
            0 <= i < lines@.len() ==> #[trigger] out@[i]@ == seen_at(tier as int, lines@[i]@),
{
    let mut out: Vec<Vec<char>> = Vec::new();
    let mut i: usize = 0;
    while i < lines.len()
        invariant
            i <= lines@.len(),
            out@.len() == i,
            forall|k: int|
                0 <= k < i ==> #[trigger] out@[k]@ == seen_at(tier as int, lines@[k]@),
        decreases lines@.len() - i,
    {
        out.push(look(tier, lines[i].as_slice()));
        i = i + 1;
    }
    out
}

fn find_in_tier(lines: &[Vec<char>], pat: &[Vec<char>], from: usize, tier: usize) -> (r: Option<
    usize,
>)
    requires
        0 < pat@.len() <= lines@.len(),
    ensures
        match r {
            Some(i) => first_match(views(lines@), views(pat@), from as int, tier as int) == Some(
                i as int,
            ) && from <= i && i + pat@.len() <= lines@.len(),
            None => first_match(views(lines@), views(pat@), from as int, tier as int) is None,
        },
{
    let ghost v = views(lines@);
    let ghost p = views(pat@);
    let seen: Vec<Vec<char>> = look_all(tier, lines);
    let want: Vec<Vec<char>> = look_all(tier, pat);
    let m: usize = lines.len();
    let n: usize = pat.len();
    let last: usize = m - n;
    let mut i: usize = from;
    while i <= last
        invariant
            from <= i,
            n == pat@.len() == want@.len() == p.len(),
            n > 0,
            last + n == m == lines@.len() == seen@.len() == v.len(),
            v == views(lines@),
            p == views(pat@),
            forall|k: int|
                0 <= k < seen@.len() ==> #[trigger] seen@[k]@ == seen_at(tier as int, lines@[k]@),
            forall|k: int|
                0 <= k < want@.len() ==> #[trigger] want@[k]@ == seen_at(tier as int, pat@[k]@),
            first_match(v, p, from as int, tier as int) == first_match(v, p, i as int, tier as int),
        decreases last + 1 - i,
    {
        let mut ok: bool = true;
        let mut k: usize = 0;
        while k < n && ok
            invariant
                k <= n == want@.len() == p.len() == pat@.len(),
                i <= last,
                last + n == m == lines@.len() == seen@.len() == v.len(),
                v == views(lines@),
                p == views(pat@),
                forall|j: int|
                    0 <= j < seen@.len() ==> #[trigger] seen@[j]@ == seen_at(
                        tier as int,
                        lines@[j]@,
                    ),
                forall|j: int|
                    0 <= j < want@.len() ==> #[trigger] want@[j]@ == seen_at(tier as int, pat@[j]@),
                ok ==> forall|j: int|
                    0 <= j < k ==> seen_at(tier as int, v[i + j]) == seen_at(
                        tier as int,
                        #[trigger] p[j],
                    ),
                !ok ==> !match_at(v, p, i as int, tier as int),
            decreases n - k,
        {
            proof {
                assert(v[i + k] == lines@[i + k]@);
                assert(p[k as int] == pat@[k as int]@);
            }
            if !same(seen[i + k].as_slice(), want[k].as_slice()) {
                ok = false;
                proof {
                    assert(seen@[i + k]@ == seen_at(tier as int, lines@[i + k]@));
                    assert(want@[k as int]@ == seen_at(tier as int, pat@[k as int]@));
                    if match_at(v, p, i as int, tier as int) {
                        assert(seen_at(tier as int, v[i + k]) == seen_at(tier as int, p[k as int]));
                    }
                }
            }
            k = k + 1;
        }
        if ok {
            proof {
                assert(match_at(v, p, i as int, tier as int));
            }
            return Some(i);
        }
        i = i + 1;
    }
    None
}

/// Finds a pattern among lines.
pub fn seek_lines(lines: &[Vec<char>], pat: &[Vec<char>], start: usize, eof: bool, mode: UpdateMode) -> (r:
    Option<usize>)
    ensures
        match r {
            Some(i) => sought(views(lines@), views(pat@), start as int, eof, mode) == Some(i as int)
                && (pat@.len() > 0 ==> i + pat@.len() <= lines@.len()) && (pat@.len() == 0 ==> i
                == start),
            None => sought(views(lines@), views(pat@), start as int, eof, mode) is None,
        },
{
    if pat.len() == 0 {
        return Some(start);
    }
    if pat.len() > lines.len() {
        return None;
    }
    let last: usize = lines.len() - pat.len();
    let from: usize = if !eof {
        start
    } else {
        match mode {
            UpdateMode::NormalizeToLf => last,
            UpdateMode::PreserveLineEndings => if last >= start {
                last
            } else {
                start
            },
        }
    };
    let ghost v = views(lines@);
    let ghost p = views(pat@);
    let mut tier: usize = 0;
    while tier < 4
        invariant
            tier <= 4,
            0 < pat@.len() <= lines@.len(),
            v == views(lines@),
            p == views(pat@),
            from == search_start(v, p, start as int, eof, mode),
            tiered(v, p, from as int, 0) == tiered(v, p, from as int, tier as int),
        decreases 4 - tier,
    {
        if let Some(i) = find_in_tier(lines, pat, from, tier) {
            return Some(i);
        }
        tier = tier + 1;
    }
    None
}

/// Lines as characters.
pub fn char_lines(lines: &[String]) -> (out: Vec<Vec<char>>)
    ensures
        views(out@) == texts(lines@),
{
    let mut out: Vec<Vec<char>> = Vec::new();
    let mut i: usize = 0;
    while i < lines.len()
        invariant
            i <= lines@.len(),
            out@.len() == i,
            forall|k: int| 0 <= k < i ==> #[trigger] out@[k]@ == lines@[k]@,
        decreases lines@.len() - i,
    {
        out.push(chars_of(lines[i].as_str()));
        i = i + 1;
    }
    proof {
        assert(views(out@) =~= texts(lines@));
    }
    out
}

/// Finds `pattern` in `lines` from `start` on; `eof` looks at the end of the file.
pub fn seek_sequence(
    lines: &[String],
    pattern: &[String],
    start: usize,
    eof: bool,
    update_file_mode: UpdateMode,
) -> (r: Option<usize>)
    ensures
        match r {
            Some(i) => sought(texts(lines@), texts(pattern@), start as int, eof, update_file_mode)
                == Some(i as int),
            None => sought(
                texts(lines@),
                texts(pattern@),
                start as int,
                eof,
                update_file_mode,
            ) is None,
        },
{
    let l: Vec<Vec<char>> = char_lines(lines);
    let p: Vec<Vec<char>> = char_lines(pattern);
    seek_lines(l.as_slice(), p.as_slice(), start, eof, update_file_mode)
}

/// What a stricter tier takes for equal, every looser one takes for equal too.
pub proof fn tiers_only_loosen(s: Seq<char>, t: Seq<char>, tier: int, looser: int)
    requires
        0 <= tier <= looser <= 3,
        seen_at(tier, s) == seen_at(tier, t),
    ensures
        seen_at(looser, s) == seen_at(looser, t),
{
    if tier <= 1 && looser >= 2 {
        lemma_trim_ignores_end(s);
        lemma_trim_ignores_end(t);
    }
    if looser == 3 && tier < 3 {
        assert(trim(s) == trim(t));
    }
}

/// An exact occurrence is found before anything else, and the first one at that.
pub proof fn exact_match_comes_first(
    lines: Seq<Seq<char>>,
    pat: Seq<Seq<char>>,
    start: int,
    mode: UpdateMode,
    i: int,
)
    requires
        pat.len() > 0,
        0 <= start <= i,
        match_at(lines, pat, i, 0),
    ensures
        sought(lines, pat, start, false, mode) matches Some(p) && start <= p <= i && match_at(
            lines,
            pat,
            p,
            0,
        ),
{
    lemma_first_match(lines, pat, start, 0, i);
}

proof fn lemma_first_match(lines: Seq<Seq<char>>, pat: Seq<Seq<char>>, from: int, tier: int, i: int)
    requires
        pat.len() > 0,
        0 <= from <= i,
        match_at(lines, pat, i, tier),
    ensures
        first_match(lines, pat, from, tier) matches Some(p) && from <= p <= i && match_at(
            lines,
            pat,
            p,
            tier,
        ),
    decreases i - from,
{
    if !match_at(lines, pat, from, tier) {
        lemma_first_match(lines, pat, from + 1, tier, i);
    }
}

proof fn lemma_match_fits(lines: Seq<Seq<char>>, pat: Seq<Seq<char>>, from: int, tier: int)
    ensures
        first_match(lines, pat, from, tier) matches Some(p) ==> match_at(lines, pat, p, tier),
    decreases lines.len() - from,
{
    if 0 <= from && from + pat.len() <= lines.len() && !match_at(lines, pat, from, tier) && from
        < lines.len() {
        lemma_match_fits(lines, pat, from + 1, tier);
    }
}

/// What is found is there: some tier takes the lines at that place for those of the
/// pattern.
pub proof fn found_lines_are_in_the_file(
    lines: Seq<Seq<char>>,
    pat: Seq<Seq<char>>,
    start: int,
    eof: bool,
    mode: UpdateMode,
)
    requires
        pat.len() > 0,
    ensures
        sought(lines, pat, start, eof, mode) matches Some(p) ==> exists|tier: int|
            0 <= tier < 4 && #[trigger] match_at(lines, pat, p, tier),
{
    let from = search_start(lines, pat, start, eof, mode);
    reveal_with_fuel(tiered, 5);
    lemma_match_fits(lines, pat, from, 0);
    lemma_match_fits(lines, pat, from, 1);
    lemma_match_fits(lines, pat, from, 2);
    lemma_match_fits(lines, pat, from, 3);
}

} // verus!
