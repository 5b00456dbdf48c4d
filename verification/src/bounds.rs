//! Paths as lists of parts, and whether one stays inside a directory.

use vstd::prelude::*;

use crate::json::text_eq;
use crate::text::{chars_of, string_of};

verus! {

/// A part of a path.
#[derive(Debug, PartialEq, Eq)]
pub enum Part {
    /// A root or a drive: nothing lies above it.
    Top(String),
    /// `.`
    Here,
    /// `..`
    Up,
    /// A name.
    Name(String),
}

/// What a part says.
#[verifier::ext_equal]
pub enum PartView {
    Top(Seq<char>),
    Here,
    Up,
    Name(Seq<char>),
}

impl View for Part {
    type V = PartView;

    open spec fn view(&self) -> PartView {
        match self {
            Part::Top(s) => PartView::Top(s@),
            Part::Here => PartView::Here,
            Part::Up => PartView::Up,
            Part::Name(s) => PartView::Name(s@),
        }
    }
}

/// The views of some parts.
pub open spec fn parts(v: Seq<Part>) -> Seq<PartView> {
    Seq::new(v.len(), |i: int| v[i]@)
}

/// A path that has already been resolved, one part further. `..` takes away what is
/// in front of it; in front of a root, or of nothing, it stays.
pub open spec fn one_further(done: Seq<PartView>, part: PartView) -> Seq<PartView> {
    match part {
        PartView::Here => done,
        PartView::Up => if done.len() > 0 && !(done.last() is Top) {
            done.drop_last()
        } else {
            done.push(part)
        },
        _ => done.push(part),
    }
}

/// A path with `.` and `..` resolved without a look at the file system.
pub open spec fn normalized(p: Seq<PartView>) -> Seq<PartView>
    decreases p.len(),
{
    if p.len() == 0 {
        p
    } else {
        one_further(normalized(p.drop_last()), p.last())
    }
}

/// Whether a path lies in a directory.
pub open spec fn within(path: Seq<PartView>, dir: Seq<PartView>) -> bool {
    normalized(dir).is_prefix_of(normalized(path))
}

fn same_part(a: &Part, b: &Part) -> (r: bool)
    ensures
        r == (a@ == b@),
{
    match (a, b) {
        (Part::Top(x), Part::Top(y)) => text_eq(x.as_str(), y.as_str()),
        (Part::Name(x), Part::Name(y)) => text_eq(x.as_str(), y.as_str()),
        (Part::Here, Part::Here) => true,
        (Part::Up, Part::Up) => true,
        _ => false,
    }
}

fn copy_part(p: &Part) -> (r: Part)
    ensures
        r@ == p@,
{
    match p {
        Part::Top(s) => Part::Top(s.clone()),
        Part::Here => Part::Here,
        Part::Up => Part::Up,
        Part::Name(s) => Part::Name(s.clone()),
    }
}

/// Resolves `.` and `..` without a look at the file system.
pub fn lexically_normalize(p: &[Part]) -> (out: Vec<Part>)
    ensures
        parts(out@) == normalized(parts(p@)),
{
    let mut out: Vec<Part> = Vec::new();
    let mut i: usize = 0;
    proof {
        assert(parts(p@).take(0) =~= Seq::<PartView>::empty());
        assert(parts(out@) =~= Seq::<PartView>::empty());
    }
    while i < p.len()
        invariant
            i <= p@.len(),
            parts(out@) == normalized(parts(p@).take(i as int)),
        decreases p@.len() - i,
    {
        let ghost before = out@;
        let ghost upto = parts(p@).take(i + 1);
        proof {
            assert(upto.drop_last() =~= parts(p@).take(i as int));
            assert(upto.last() == p@[i as int]@);
        }
        let n: usize = out.len();
        let keep: bool = match &p[i] {
            Part::Here => false,
            Part::Up => {
                if n > 0 {
                    proof {
                        assert(parts(before).last() == before[n - 1]@);
                    }
                    match &out[n - 1] {
                        Part::Top(_) => true,
                        _ => false,
                    }
                } else {
                    true
                }
            },
            _ => true,
        };
        let up: bool = match &p[i] {
            Part::Up => true,
            _ => false,
        };
        if keep {
            out.push(copy_part(&p[i]));
            proof {
                assert(parts(out@) =~= parts(before).push(p@[i as int]@));
            }
        } else if up {
            let _ = out.pop();
            proof {
                assert(parts(out@) =~= parts(before).drop_last());
            }
        }
        i = i + 1;
    }
    proof {
        assert(parts(p@).take(i as int) =~= parts(p@));
    }
    out
}

/// Whether a path lies in a directory, `.` and `..` resolved in both.
pub fn path_within_workspace(abs: &[Part], ws: &[Part]) -> (r: bool)
    ensures
        r == within(parts(abs@), parts(ws@)),
{
    let a: Vec<Part> = lexically_normalize(abs);
    let w: Vec<Part> = lexically_normalize(ws);
    if a.len() < w.len() {
        return false;
    }
    let mut i: usize = 0;
    while i < w.len()
        invariant
            i <= w@.len() <= a@.len(),
            parts(a@) == normalized(parts(abs@)),
            parts(w@) == normalized(parts(ws@)),
            parts(w@).take(i as int) =~= parts(a@).take(i as int),
        decreases w@.len() - i,
    {
        if !same_part(&a[i], &w[i]) {
            proof {
                assert(parts(a@)[i as int] != parts(w@)[i as int]);
            }
            return false;
        }
        proof {
            assert(parts(a@)[i as int] == parts(w@)[i as int]);
        }
        i = i + 1;
    }
    proof {
        assert(parts(w@).take(i as int) =~= parts(w@));
        assert(parts(w@) =~= parts(a@).subrange(0, w@.len() as int));
    }
    true
}

/// Where a path from a root leads: `..` at the root stays there.
pub open spec fn place(p: Seq<PartView>) -> Seq<PartView>
    decreases p.len(),
{
    if p.len() == 0 {
        p
    } else {
        let done = place(p.drop_last());
        match p.last() {
            PartView::Here => done,
            PartView::Up => if done.len() > 0 && !(done.last() is Top) {
                done.drop_last()
            } else {
                done
            },
            _ => done.push(p.last()),
        }
    }
}

/// Whether a path begins at a root and names only what lies below it.
pub open spec fn rooted(p: Seq<PartView>) -> bool {
    &&& p.len() > 0
    &&& p[0] is Top
    &&& forall|i: int| 0 < i < p.len() ==> !(#[trigger] p[i] is Top)
}

/// Whether a path is made of a root and names alone.
pub open spec fn plain(p: Seq<PartView>) -> bool {
    &&& rooted(p)
    &&& forall|i: int| 0 < i < p.len() ==> #[trigger] p[i] is Name
}

proof fn lemma_plain_is_normal(p: Seq<PartView>)
    requires
        p.len() > 0 ==> plain(p),
    ensures
        normalized(p) == p,
    decreases p.len(),
{
    if p.len() > 0 {
        let f = p.drop_last();
        assert forall|i: int| 0 < i < f.len() implies #[trigger] f[i] is Name by {
            assert(f[i] == p[i]);
        }
        assert forall|i: int| 0 < i < f.len() implies !(#[trigger] f[i] is Top) by {
            assert(f[i] == p[i]);
        }
        if f.len() > 0 {
            assert(f[0] == p[0]);
        }
        lemma_plain_is_normal(f);
        assert(p.last() == p[p.len() - 1]);
        assert(f.push(p.last()) =~= p);
    }
}

/// The resolved form of a path from a root is where it leads, or a `..` that cannot
/// be taken lies right behind the root.
proof fn lemma_normalized_leads(p: Seq<PartView>)
    requires
        rooted(p),
    ensures
        normalized(p).len() > 0,
        normalized(p)[0] == p[0],
        place(p).len() > 0,
        place(p)[0] == p[0],
        plain(place(p)),
        normalized(p) == place(p) || (normalized(p).len() > 1 && normalized(p)[1] is Up
            && place(p) == seq![p[0]] + normalized(p).skip(2)),
    decreases p.len(),
{
    let f = p.drop_last();
    if f.len() == 0 {
        assert(p =~= seq![p[0]]);
        assert(normalized(f) =~= f);
        assert(place(f) =~= f);
        assert(normalized(p) =~= p);
        assert(place(p) =~= p);
    } else {
        assert(rooted(f)) by {
            assert(f[0] == p[0]);
            assert forall|i: int| 0 < i < f.len() implies !(#[trigger] f[i] is Top) by {
                assert(f[i] == p[i]);
            }
        }
        lemma_normalized_leads(f);
        let (n, q) = (normalized(f), place(f));
        let part = p.last();
        assert(part == p[p.len() - 1]);
        assert(!(part is Top));
        match part {
            PartView::Here => {},
            PartView::Name(_) => {
                if n != q {
                    assert(seq![p[0]] + n.push(part).skip(2) =~= q.push(part));
                }
            },
            PartView::Up => {
                if n == q {
                    if n.len() == 1 {
                        assert(normalized(p) =~= seq![p[0], part]);
                        assert(seq![p[0]] + normalized(p).skip(2) =~= q);
                    }
                } else {
                    assert(n.len() == q.len() + 1);
                    if n.len() == 2 {
                        assert(q =~= seq![p[0]]);
                        assert(normalized(p) =~= seq![p[0]]);
                        assert(place(p) =~= q);
                    } else {
                        assert(q.last() == n.last());
                        assert(q.last() == q[q.len() - 1]);
                        assert(seq![p[0]] + n.drop_last().skip(2) =~= q.drop_last());
                    }
                }
            },
            PartView::Top(_) => {},
        }
    }
}

/// A path that is found to lie in a directory leads into it, however many `..` it
/// holds.
pub proof fn no_path_escapes_the_directory(path: Seq<PartView>, dir: Seq<PartView>)
    requires
        rooted(path),
        plain(dir),
        within(path, dir),
    ensures
        dir.is_prefix_of(place(path)),
{
    lemma_plain_is_normal(dir);
    lemma_normalized_leads(path);
    let n = normalized(path);
    if n != place(path) {
        if dir.len() > 1 {
            assert(dir[1] == n[1]);
        }
        assert(dir =~= seq![path[0]]);
    }
}

/// A path below a directory, without `.` and `..`, is found to lie in it.
pub proof fn plain_path_below_is_within(dir: Seq<PartView>, names: Seq<PartView>)
    requires
        plain(dir),
        forall|i: int| 0 <= i < names.len() ==> #[trigger] names[i] is Name,
    ensures
        within(dir + names, dir),
{
    let p = dir + names;
    assert forall|i: int| 0 < i < p.len() implies #[trigger] p[i] is Name by {
        if i >= dir.len() {
            assert(p[i] == names[i - dir.len()]);
        } else {
            assert(p[i] == dir[i]);
        }
    }
    assert(plain(p));
    lemma_plain_is_normal(p);
    lemma_plain_is_normal(dir);
}

/// A name of a path as a part; nothing for an empty one.
pub open spec fn part_of(name: Seq<char>) -> Seq<PartView> {
    if name.len() == 0 {
        Seq::empty()
    } else if name == "."@ {
        seq![PartView::Here]
    } else if name == ".."@ {
        seq![PartView::Up]
    } else {
        seq![PartView::Name(name)]
    }
}

/// The parts before the last slash of a path, and the name behind it.
pub open spec fn scanned(path: Seq<char>) -> (Seq<PartView>, Seq<char>)
    decreases path.len(),
{
    if path.len() == 0 {
        (Seq::empty(), Seq::empty())
    } else {
        let (done, name) = scanned(path.drop_last());
        if path.last() == '/' {
            (done + part_of(name), Seq::empty())
        } else {
            (done, name.push(path.last()))
        }
    }
}

/// The parts of a path whose names are separated by slashes.
pub open spec fn path_parts(path: Seq<char>) -> Seq<PartView> {
    let (done, name) = scanned(path);
    (if path.len() > 0 && path[0] == '/' {
        seq![PartView::Top("/"@)]
    } else {
        Seq::empty()
    }) + done + part_of(name)
}

fn push_name(out: &mut Vec<Part>, name: &[char])
    ensures
        parts(final(out)@) == parts(old(out)@) + part_of(name@),
{
    let ghost before = parts(out@);
    if name.len() > 0 {
        let s: String = string_of(name);
        if text_eq(s.as_str(), ".") {
            out.push(Part::Here);
        } else if text_eq(s.as_str(), "..") {
            out.push(Part::Up);
        } else {
            out.push(Part::Name(s));
        }
    }
    proof {
        assert(parts(out@) =~= before + part_of(name@));
    }
}

/// Reads a path whose names are separated by slashes.
pub fn parts_of(path: &str) -> (out: Vec<Part>)
    ensures
        parts(out@) == path_parts(path@),
{
    let s: Vec<char> = chars_of(path);
    let mut out: Vec<Part> = Vec::new();
    let mut name: Vec<char> = Vec::new();
    let ghost top: Seq<PartView> = if s@.len() > 0 && s@[0] == '/' {
        seq![PartView::Top("/"@)]
    } else {
        Seq::empty()
    };
    if s.len() > 0 && s[0] == '/' {
        out.push(Part::Top("/".to_owned()));
    }
    let mut i: usize = 0;
    proof {
        assert(s@.take(0) =~= Seq::<char>::empty());
        assert(parts(out@) =~= top + scanned(s@.take(0)).0);
        assert(name@ =~= scanned(s@.take(0)).1);
    }
    while i < s.len()
        invariant
            i <= s@.len(),
            parts(out@) == top + scanned(s@.take(i as int)).0,
            name@ == scanned(s@.take(i as int)).1,
        decreases s@.len() - i,
    {
        proof {
            assert(s@.take(i + 1).drop_last() =~= s@.take(i as int));
            assert(s@.take(i + 1).last() == s@[i as int]);
        }
        if s[i] == '/' {
            let ghost before = parts(out@);
            push_name(&mut out, name.as_slice());
            proof {
                assert(parts(out@) =~= top + (scanned(s@.take(i as int)).0 + part_of(name@)));
            }
            name = Vec::new();
        } else {
            name.push(s[i]);
        }
        i = i + 1;
    }
    proof {
        assert(s@.take(i as int) =~= s@);
    }
    push_name(&mut out, name.as_slice());
    out
}

/// A path seen from a directory: from the root when it begins there, else from the
/// directory.
pub open spec fn seen_from(path: Seq<char>, dir: Seq<char>) -> Seq<PartView> {
    if path.len() > 0 && path[0] == '/' {
        path_parts(path)
    } else {
        path_parts(dir) + path_parts(path)
    }
}

/// A path seen from a directory.
pub fn parts_from(path: &str, dir: &str) -> (out: Vec<Part>)
    ensures
        parts(out@) == seen_from(path@, dir@),
{
    let s: Vec<char> = chars_of(path);
    if s.len() > 0 && s[0] == '/' {
        return parts_of(path);
    }
    let mut out: Vec<Part> = parts_of(dir);
    let more: Vec<Part> = parts_of(path);
    let ghost before = parts(out@);
    let mut i: usize = 0;
    proof {
        assert(before + parts(more@).take(0) =~= before);
    }
    while i < more.len()
        invariant
            i <= more@.len(),
            parts(out@) == before + parts(more@).take(i as int),
        decreases more@.len() - i,
    {
        let ghost mid = out@;
        out.push(copy_part(&more[i]));
        proof {
            assert(parts(out@) =~= parts(mid).push(more@[i as int]@));
            assert(parts(more@).take(i + 1) =~= parts(more@).take(i as int).push(
                more@[i as int]@,
            ));
            assert(parts(out@) =~= before + parts(more@).take(i + 1));
        }
        i = i + 1;
    }
    proof {
        assert(parts(more@).take(i as int) =~= parts(more@));
    }
    out
}

proof fn lemma_scanned_names(path: Seq<char>)
    ensures
        forall|i: int| 0 <= i < scanned(path).0.len() ==> !(#[trigger] scanned(path).0[i] is Top),
    decreases path.len(),
{
    if path.len() > 0 {
        let f = path.drop_last();
        lemma_scanned_names(f);
        let (done, name) = scanned(f);
        if path.last() == '/' {
            let all = done + part_of(name);
            assert forall|i: int| 0 <= i < all.len() implies !(#[trigger] all[i] is Top) by {
                if i < done.len() {
                    assert(all[i] == done[i]);
                } else {
                    assert(all[i] == part_of(name)[i - done.len()]);
                }
            }
        }
    }
}

proof fn lemma_relative_names(path: Seq<char>)
    requires
        path.len() == 0 || path[0] != '/',
    ensures
        forall|i: int| 0 <= i < path_parts(path).len() ==> !(#[trigger] path_parts(path)[i] is Top),
{
    lemma_scanned_names(path);
    let (done, name) = scanned(path);
    let all = path_parts(path);
    assert(all =~= done + part_of(name));
    assert forall|i: int| 0 <= i < all.len() implies !(#[trigger] all[i] is Top) by {
        if i < done.len() {
            assert(all[i] == done[i]);
        } else {
            assert(all[i] == part_of(name)[i - done.len()]);
        }
    }
}

/// A path that begins with a slash begins at the root.
pub proof fn slash_begins_at_the_root(path: Seq<char>)
    requires
        path.len() > 0,
        path[0] == '/',
    ensures
        rooted(path_parts(path)),
{
    lemma_scanned_names(path);
    let (done, name) = scanned(path);
    let all = path_parts(path);
    let top = seq![PartView::Top("/"@)];
    assert(all == top + done + part_of(name));
    assert(all[0] == PartView::Top("/"@));
    assert forall|i: int| 0 < i < all.len() implies !(#[trigger] all[i] is Top) by {
        if i < 1 + done.len() {
            assert(all[i] == done[i - 1]);
        } else {
            assert(all[i] == part_of(name)[i - 1 - done.len()]);
        }
    }
}

/// A path seen from a directory that begins at the root begins there too.
pub proof fn seen_from_the_root(path: Seq<char>, dir: Seq<char>)
    requires
        dir.len() > 0,
        dir[0] == '/',
    ensures
        rooted(seen_from(path, dir)),
{
    slash_begins_at_the_root(dir);
    if path.len() > 0 && path[0] == '/' {
        slash_begins_at_the_root(path);
    } else {
        lemma_relative_names(path);
        let (d, p) = (path_parts(dir), path_parts(path));
        assert forall|i: int| 0 < i < (d + p).len() implies !(#[trigger] (d + p)[i] is Top) by {
            if i < d.len() {
                assert((d + p)[i] == d[i]);
            } else {
                assert((d + p)[i] == p[i - d.len()]);
            }
        }
    }
}

} // verus!
