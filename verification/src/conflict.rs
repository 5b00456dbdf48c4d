//! Calls that write the same file: which of them have to run one after another.

use vstd::prelude::*;

use crate::apply_patch_engine::parser::behind;
use crate::json::{arr_at, str_at, string_items, strings_of, text_eq, texts, Json};
use crate::lines::{split_lines, split_nl, views};
use crate::search::starts_with;
use crate::text::{chars_of, slice_of, string_of, trim, trim_of};

verus! {

/// A text as a list of none or one.
pub open spec fn listed(s: Option<Seq<char>>) -> Seq<Seq<char>> {
    match s {
        Some(t) => seq![t],
        None => Seq::<Seq<char>>::empty(),
    }
}

/// The paths under `path` and `paths`.
pub open spec fn named_paths(args: Json) -> Seq<Seq<char>> {
    listed(str_at(args, "path"@)) + (match arr_at(args, "paths"@) {
        Some(a) => strings_of(a),
        None => Seq::<Seq<char>>::empty(),
    })
}

/// The path that a line of a patch names as a target.
pub open spec fn line_target(line: Seq<char>) -> Option<Seq<char>> {
    let t = trim(line);
    match behind(t, "*** Add File: "@) {
        Some(p) => Some(p),
        None => match behind(t, "*** Update File: "@) {
            Some(p) => Some(p),
            None => match behind(t, "*** Delete File: "@) {
                Some(p) => Some(p),
                None => behind(t, "*** Move to: "@),
            },
        },
    }
}

/// The paths that the first `n` lines of a patch name as targets.
pub open spec fn targets_upto(lines: Seq<Seq<char>>, n: int) -> Seq<Seq<char>>
    decreases n,
{
    if n <= 0 {
        Seq::<Seq<char>>::empty()
    } else {
        targets_upto(lines, n - 1) + listed(line_target(lines[n - 1]))
    }
}

/// The paths that a patch names as targets.
pub open spec fn patch_targets(patch: Seq<char>) -> Seq<Seq<char>> {
    targets_upto(split_nl(patch), split_nl(patch).len() as int)
}

/// What a call does: the name of its tool, or the action of the file tool.
pub open spec fn action_of(tool: Seq<char>, args: Json) -> Seq<char> {
    if tool == "file"@ {
        match str_at(args, "action"@) {
            Some(a) => a,
            None => ""@,
        }
    } else {
        tool
    }
}

/// The paths that a call writes. The todo list counts as one of them: its changes
/// keep their order.
pub open spec fn write_paths(tool: Seq<char>, args: Json) -> Seq<Seq<char>> {
    let action = action_of(tool, args);
    if action == "patch"@ || action == "write"@ || action == "edit_file"@ || action == "edit"@
        || action == "edit_diff"@ || action == "delete"@ {
        named_paths(args)
    } else if action == "move"@ || action == "copy"@ {
        listed(str_at(args, "dest"@)) + listed(str_at(args, "source"@))
    } else if action == "todo_list"@ || action == "todo_update"@ || action == "todo_write"@ {
        seq!["__qaqh_todo__"@]
    } else if action == "copy_range"@ {
        listed(str_at(args, "target_path"@))
    } else if action == "apply_patch"@ {
        match str_at(args, "patch"@) {
            Some(p) => patch_targets(p),
            None => Seq::<Seq<char>>::empty(),
        }
    } else {
        Seq::<Seq<char>>::empty()
    }
}

fn push_text(out: &mut Vec<String>, s: Option<&str>)
    ensures
        texts(final(out)@) == texts(old(out)@) + listed(
            match s {
                Some(t) => Some(t@),
                None => None,
            },
        ),
{
    let ghost before = texts(out@);
    match s {
        Some(t) => {
            out.push(t.to_owned());
            proof {
                assert(texts(out@) =~= before + seq![t@]);
            }
        },
        None => {
            proof {
                assert(before + Seq::<Seq<char>>::empty() =~= before);
            }
        },
    }
}

fn collect_paths(args: &Json) -> (out: Vec<String>)
    ensures
        texts(out@) == named_paths(*args),
{
    let mut out: Vec<String> = Vec::new();
    proof {
        assert(texts(out@) =~= Seq::<Seq<char>>::empty());
    }
    push_text(&mut out, args.get_str("path"));
    let ghost first = texts(out@);
    proof {
        assert(first =~= listed(str_at(*args, "path"@)));
    }
    match args.get_array("paths") {
        Some(a) => {
            let mut more: Vec<String> = string_items(a.as_slice());
            let ghost m = texts(more@);
            out.append(&mut more);
            proof {
                assert(texts(out@) =~= first + m);
            }
        },
        None => {
            proof {
                assert(first + Seq::<Seq<char>>::empty() =~= first);
            }
        },
    }
    out
}

fn after(s: &[char], prefix: &str) -> (r: Option<String>)
    ensures
        match r {
            Some(v) => behind(s@, prefix@) == Some(v@),
            None => behind(s@, prefix@) is None,
        },
{
    let p: Vec<char> = chars_of(prefix);
    if starts_with(s, p.as_slice()) {
        let rest: Vec<char> = slice_of(s, p.len(), s.len());
        proof {
            assert(rest@ =~= s@.skip(p@.len() as int));
        }
        Some(string_of(rest.as_slice()))
    } else {
        None
    }
}

fn target_of_line(line: &[char]) -> (r: Option<String>)
    ensures
        match r {
            Some(v) => line_target(line@) == Some(v@),
            None => line_target(line@) is None,
        },
{
    let t: Vec<char> = trim_of(line);
    if let Some(p) = after(t.as_slice(), "*** Add File: ") {
        return Some(p);
    }
    if let Some(p) = after(t.as_slice(), "*** Update File: ") {
        return Some(p);
    }
    if let Some(p) = after(t.as_slice(), "*** Delete File: ") {
        return Some(p);
    }
    after(t.as_slice(), "*** Move to: ")
}

/// Finds the paths that a patch names as targets.
pub fn patch_target_paths(patch: &str) -> (out: Vec<String>)
    ensures
        texts(out@) == patch_targets(patch@),
{
    let c: Vec<char> = chars_of(patch);
    let lines: Vec<Vec<char>> = split_lines(c.as_slice());
    let ghost v = views(lines@);
    let mut out: Vec<String> = Vec::new();
    let mut i: usize = 0;
    proof {
        assert(texts(out@) =~= Seq::<Seq<char>>::empty());
    }
    while i < lines.len()
        invariant
            i <= lines@.len(),
            v == views(lines@),
            texts(out@) == targets_upto(v, i as int),
        decreases lines@.len() - i,
    {
        proof {
            assert(v[i as int] == lines@[i as int]@);
        }
        let ghost before = texts(out@);
        match target_of_line(lines[i].as_slice()) {
            Some(p) => {
                let ghost pv = p@;
                out.push(p);
                proof {
                    assert(texts(out@) =~= before + seq![pv]);
                }
            },
            None => {
                proof {
                    assert(before + Seq::<Seq<char>>::empty() =~= before);
                }
            },
        }
        i = i + 1;
    }
    out
}

/// Finds the paths that a call writes.
pub fn file_write_paths(tool_name: &str, args: &Json) -> (out: Vec<String>)
    ensures
        texts(out@) == write_paths(tool_name@, *args),
{
    let action: &str = if text_eq(tool_name, "file") {
        match args.get_str("action") {
            Some(a) => a,
            None => "",
        }
    } else {
        tool_name
    };
    if text_eq(action, "patch") || text_eq(action, "write") || text_eq(action, "edit_file")
        || text_eq(action, "edit") || text_eq(action, "edit_diff") || text_eq(action, "delete") {
        return collect_paths(args);
    }
    let mut out: Vec<String> = Vec::new();
    proof {
        assert(texts(out@) =~= Seq::<Seq<char>>::empty());
    }
    if text_eq(action, "move") || text_eq(action, "copy") {
        push_text(&mut out, args.get_str("dest"));
        proof {
            assert(texts(out@) =~= listed(str_at(*args, "dest"@)));
        }
        push_text(&mut out, args.get_str("source"));
    } else if text_eq(action, "todo_list") || text_eq(action, "todo_update") || text_eq(
        action,
        "todo_write",
    ) {
        out.push("__qaqh_todo__".to_owned());
        proof {
            assert(texts(out@) =~= seq!["__qaqh_todo__"@]);
        }
    } else if text_eq(action, "copy_range") {
        push_text(&mut out, args.get_str("target_path"));
        proof {
            assert(texts(out@) =~= listed(str_at(*args, "target_path"@)));
        }
    } else if text_eq(action, "apply_patch") {
        if let Some(p) = args.get_str("patch") {
            return patch_target_paths(p);
        }
    }
    out
}

/// Two calls write a path in common.
pub open spec fn share(paths: Seq<Seq<Seq<char>>>, i: int, j: int) -> bool {
    exists|a: int, b: int|
        0 <= a < paths[i].len() && 0 <= b < paths[j].len() && #[trigger] paths[i][a]
            == #[trigger] paths[j][b]
}

/// A chain of calls from `i` to `j`, each sharing a path with the next.
pub open spec fn chain(paths: Seq<Seq<Seq<char>>>, c: Seq<int>, i: int, j: int) -> bool {
    &&& c.len() > 0
    &&& c[0] == i
    &&& c.last() == j
    &&& forall|t: int| 0 <= t < c.len() ==> 0 <= #[trigger] c[t] < paths.len()
    &&& forall|t: int| 0 <= t < c.len() - 1 ==> share(paths, #[trigger] c[t], c[t + 1])
}

/// The two calls get in each other's way, directly or through others.
pub open spec fn joined(paths: Seq<Seq<Seq<char>>>, i: int, j: int) -> bool {
    exists|c: Seq<int>| chain(paths, c, i, j)
}

proof fn lemma_share_symmetric(paths: Seq<Seq<Seq<char>>>, i: int, j: int)
    requires
        share(paths, i, j),
    ensures
        share(paths, j, i),
{
    let (a, b) = choose|a: int, b: int|
        0 <= a < paths[i].len() && 0 <= b < paths[j].len() && #[trigger] paths[i][a]
            == #[trigger] paths[j][b];
    assert(paths[j][b] == paths[i][a]);
}

proof fn lemma_chain_concat(
    paths: Seq<Seq<Seq<char>>>,
    a: Seq<int>,
    b: Seq<int>,
    i: int,
    m: int,
    j: int,
)
    requires
        chain(paths, a, i, m),
        chain(paths, b, m, j),
    ensures
        chain(paths, a + b.skip(1), i, j),
{
    let c = a + b.skip(1);
    assert forall|t: int| 0 <= t < c.len() implies 0 <= #[trigger] c[t] < paths.len() by {
        if t < a.len() {
            assert(c[t] == a[t]);
        } else {
            assert(c[t] == b[t - a.len() + 1]);
        }
    }
    assert forall|t: int| 0 <= t < c.len() - 1 implies share(paths, #[trigger] c[t], c[t + 1]) by {
        if t < a.len() - 1 {
            assert(c[t] == a[t] && c[t + 1] == a[t + 1]);
        } else {
            let k = t - a.len() + 1;
            assert(c[t + 1] == b[k + 1]);
            assert(c[t] == b[k]);
            assert(share(paths, b[k], b[k + 1]));
        }
    }
    if b.len() == 1 {
        assert(c =~= a);
    } else {
        assert(c.last() == b.last());
    }
}

proof fn lemma_chain_reverse(paths: Seq<Seq<Seq<char>>>, a: Seq<int>, i: int, j: int)
    requires
        chain(paths, a, i, j),
    ensures
        chain(paths, a.reverse(), j, i),
{
    let c = a.reverse();
    assert forall|t: int| 0 <= t < c.len() implies 0 <= #[trigger] c[t] < paths.len() by {
        assert(c[t] == a[a.len() - 1 - t]);
    }
    assert forall|t: int| 0 <= t < c.len() - 1 implies share(paths, #[trigger] c[t], c[t + 1]) by {
        let k = a.len() - 2 - t;
        assert(c[t] == a[k + 1] && c[t + 1] == a[k]);
        assert(share(paths, a[k], a[k + 1]));
        lemma_share_symmetric(paths, a[k], a[k + 1]);
    }
}

/// Getting in each other's way is mutual, and passes on.
pub proof fn conflicts_are_mutual_and_pass_on(
    paths: Seq<Seq<Seq<char>>>,
    i: int,
    m: int,
    j: int,
)
    requires
        0 <= i < paths.len(),
        0 <= m < paths.len(),
        0 <= j < paths.len(),
    ensures
        joined(paths, i, i),
        joined(paths, i, j) ==> joined(paths, j, i),
        joined(paths, i, m) && joined(paths, m, j) ==> joined(paths, i, j),
        share(paths, i, j) ==> joined(paths, i, j),
{
    assert(chain(paths, seq![i], i, i));
    if joined(paths, i, j) {
        let a = choose|a: Seq<int>| chain(paths, a, i, j);
        lemma_chain_reverse(paths, a, i, j);
    }
    if joined(paths, i, m) && joined(paths, m, j) {
        let a = choose|a: Seq<int>| chain(paths, a, i, m);
        let b = choose|b: Seq<int>| chain(paths, b, m, j);
        lemma_chain_concat(paths, a, b, i, m, j);
    }
    if share(paths, i, j) {
        assert(chain(paths, seq![i, j], i, j));
    }
}

/// No earlier call is joined with call `i`.
pub open spec fn is_first(paths: Seq<Seq<Seq<char>>>, i: int) -> bool {
    forall|k: int| 0 <= k < i ==> !#[trigger] joined(paths, k, i)
}

/// The calls below `n` that are joined with call `r`, in order.
pub open spec fn joined_upto(paths: Seq<Seq<Seq<char>>>, r: int, n: int) -> Seq<usize>
    decreases n,
{
    if n <= 0 {
        Seq::<usize>::empty()
    } else {
        let front = joined_upto(paths, r, n - 1);
        if joined(paths, r, n - 1) {
            front.push((n - 1) as usize)
        } else {
            front
        }
    }
}

/// The groups of joined calls whose first call is below `n`.
pub open spec fn groups_upto(paths: Seq<Seq<Seq<char>>>, n: int) -> Seq<Seq<usize>>
    decreases n,
{
    if n <= 0 {
        Seq::<Seq<usize>>::empty()
    } else {
        let front = groups_upto(paths, n - 1);
        let group = joined_upto(paths, n - 1, paths.len() as int);
        if is_first(paths, n - 1) && group.len() > 1 {
            front.push(group)
        } else {
            front
        }
    }
}

/// The calls below `n` that wait for an earlier one.
pub open spec fn waiting_upto(paths: Seq<Seq<Seq<char>>>, n: int) -> Seq<usize>
    decreases n,
{
    if n <= 0 {
        Seq::<usize>::empty()
    } else {
        let front = waiting_upto(paths, n - 1);
        if is_first(paths, n - 1) {
            front
        } else {
            front.push((n - 1) as usize)
        }
    }
}

/// The paths that each of some calls writes.
pub open spec fn paths_of(pending: Seq<(String, Json)>) -> Seq<Seq<Seq<char>>> {
    Seq::new(pending.len(), |i: int| write_paths(pending[i].0@, pending[i].1))
}

fn have_common(a: &[String], b: &[String]) -> (r: bool)
    ensures
        r == exists|x: int, y: int|
            0 <= x < a@.len() && 0 <= y < b@.len() && #[trigger] texts(a@)[x] == #[trigger] texts(
                b@,
            )[y],
{
    let mut i: usize = 0;
    while i < a.len()
        invariant
            i <= a@.len(),
            forall|x: int, y: int|
                0 <= x < i && 0 <= y < b@.len() ==> #[trigger] texts(a@)[x] != #[trigger] texts(
                    b@,
                )[y],
        decreases a@.len() - i,
    {
        let mut j: usize = 0;
        while j < b.len()
            invariant
                i < a@.len(),
                j <= b@.len(),
                forall|y: int| 0 <= y < j ==> texts(a@)[i as int] != #[trigger] texts(b@)[y],
            decreases b@.len() - j,
        {
            if text_eq(a[i].as_str(), b[j].as_str()) {
                proof {
                    assert(texts(a@)[i as int] == texts(b@)[j as int]);
                }
                return true;
            }
            j = j + 1;
        }
        i = i + 1;
    }
    false
}

/// What the labels say once the pairs before `(i, j)` are merged.
spec fn labels_ok(paths: Seq<Seq<Seq<char>>>, label: Seq<usize>) -> bool {
    &&& label.len() == paths.len()
    &&& forall|x: int|
        0 <= x < label.len() ==> (#[trigger] label[x]) <= x && label[label[x] as int] == label[x]
    &&& forall|x: int, y: int|
        0 <= x < label.len() && 0 <= y < label.len() && #[trigger] label[x] == #[trigger] label[y]
            ==> joined(paths, x, y)
}

/// Merges the groups of two calls that share a path.
fn merge(label: &mut Vec<usize>, i: usize, j: usize, Ghost(paths): Ghost<Seq<Seq<Seq<char>>>>)
    requires
        labels_ok(paths, old(label)@),
        i < old(label)@.len(),
        j < old(label)@.len(),
        share(paths, i as int, j as int),
    ensures
        labels_ok(paths, final(label)@),
        final(label)@[i as int] == final(label)@[j as int],
        forall|x: int, y: int|
            0 <= x < old(label)@.len() && 0 <= y < old(label)@.len() && old(label)@[x] == old(
                label,
            )@[y] ==> #[trigger] final(label)@[x] == #[trigger] final(label)@[y],
{
    let ghost before = label@;
    let a: usize = label[i];
    let b: usize = label[j];
    if a == b {
        return;
    }
    let low: usize = if a < b { a } else { b };
    let high: usize = if a < b { b } else { a };
    let n: usize = label.len();
    let mut x: usize = 0;
    while x < n
        invariant
            x <= n == label@.len() == before.len(),
            forall|k: int|
                0 <= k < x ==> #[trigger] label@[k] == (if before[k] == high {
                    low
                } else {
                    before[k]
                }),
            forall|k: int| x <= k < n ==> #[trigger] label@[k] == before[k],
        decreases n - x,
    {
        if label[x] == high {
            label.set(x, low);
        }
        x = x + 1;
    }
    proof {
        let after = label@;
        assert forall|k: int| 0 <= k < after.len() implies (#[trigger] after[k]) <= k
            && after[after[k] as int] == after[k] by {
            assert(before[k] <= k && before[before[k] as int] == before[k]);
            assert(before[i as int] <= i && before[before[i as int] as int] == before[i as int]);
            assert(before[j as int] <= j && before[before[j as int] as int] == before[j as int]);
        }
        assert forall|p: int, q: int|
            0 <= p < after.len() && 0 <= q < after.len() && #[trigger] after[p]
                == #[trigger] after[q] implies joined(paths, p, q) by {
            if before[p] != before[q] {
                let (s, t) = if before[p] == a { (i as int, j as int) } else { (j as int, i as int) };
                assert(before[p] == before[s]);
                assert(before[q] == before[t]);
                if s == j {
                    lemma_share_symmetric(paths, i as int, j as int);
                }
                conflicts_are_mutual_and_pass_on(paths, s, s, t);
                conflicts_are_mutual_and_pass_on(paths, p, s, t);
                conflicts_are_mutual_and_pass_on(paths, p, t, q);
            }
        }
    }
}

/// Equal labels and joined calls are the same thing.
spec fn labels_exact(paths: Seq<Seq<Seq<char>>>, label: Seq<usize>) -> bool {
    &&& labels_ok(paths, label)
    &&& forall|x: int, y: int|
        0 <= x < label.len() && 0 <= y < label.len() && joined(paths, x, y) ==> #[trigger] label[x]
            == #[trigger] label[y]
}

proof fn lemma_chain_same_label(
    paths: Seq<Seq<Seq<char>>>,
    label: Seq<usize>,
    c: Seq<int>,
    x: int,
    y: int,
)
    requires
        labels_ok(paths, label),
        forall|p: int, q: int|
            0 <= p < label.len() && 0 <= q < label.len() && share(paths, p, q) ==> #[trigger] label[p]
                == #[trigger] label[q],
        chain(paths, c, x, y),
    ensures
        label[x] == label[y],
    decreases c.len(),
{
    if c.len() > 1 {
        let f = c.drop_last();
        assert forall|t: int| 0 <= t < f.len() implies 0 <= #[trigger] f[t] < paths.len() by {
            assert(f[t] == c[t]);
        }
        assert forall|t: int| 0 <= t < f.len() - 1 implies share(paths, #[trigger] f[t], f[t + 1]) by {
            assert(f[t] == c[t] && f[t + 1] == c[t + 1]);
        }
        let m = f.last();
        lemma_chain_same_label(paths, label, f, x, m);
        assert(share(paths, c[c.len() - 2], c[c.len() - 2 + 1]));
        assert(0 <= c[c.len() - 1] < paths.len());
        assert(0 <= c[c.len() - 2] < paths.len());
        assert(label[m] == label[y]);
    }
}

fn label_groups(written: &[Vec<String>], Ghost(paths): Ghost<Seq<Seq<Seq<char>>>>) -> (label: Vec<
    usize,
>)
    requires
        written@.len() == paths.len(),
        forall|i: int| 0 <= i < paths.len() ==> #[trigger] paths[i] == texts(written@[i]@),
    ensures
        labels_exact(paths, label@),
{
    let n: usize = written.len();
    let mut label: Vec<usize> = Vec::new();
    let mut i: usize = 0;
    while i < n
        invariant
            i <= n == written@.len(),
            label@.len() == i,
            forall|k: int| 0 <= k < i ==> #[trigger] label@[k] == k,
        decreases n - i,
    {
        label.push(i);
        i = i + 1;
    }
    proof {
        assert forall|x: int, y: int|
            0 <= x < label@.len() && 0 <= y < label@.len() && #[trigger] label@[x]
                == #[trigger] label@[y] implies joined(paths, x, y) by {
            conflicts_are_mutual_and_pass_on(paths, x, x, y);
        }
    }
    let mut a: usize = 0;
    while a < n
        invariant
            a <= n == written@.len() == paths.len(),
            forall|i: int| 0 <= i < paths.len() ==> #[trigger] paths[i] == texts(written@[i]@),
            labels_ok(paths, label@),
            forall|p: int, q: int|
                0 <= p < a && 0 <= q < n && share(paths, p, q) ==> #[trigger] label@[p]
                    == #[trigger] label@[q],
        decreases n - a,
    {
        let mut b: usize = 0;
        while b < n
            invariant
                a < n == written@.len() == paths.len(),
                b <= n,
                forall|i: int| 0 <= i < paths.len() ==> #[trigger] paths[i] == texts(written@[i]@),
                labels_ok(paths, label@),
                forall|p: int, q: int|
                    0 <= p < a && 0 <= q < n && share(paths, p, q) ==> #[trigger] label@[p]
                        == #[trigger] label@[q],
                forall|q: int|
                    0 <= q < b && share(paths, a as int, q) ==> label@[a as int]
                        == #[trigger] label@[q],
            decreases n - b,
        {
            let common: bool = have_common(written[a].as_slice(), written[b].as_slice());
            proof {
                assert(paths[a as int] == texts(written@[a as int]@));
                assert(paths[b as int] == texts(written@[b as int]@));
                assert(common == share(paths, a as int, b as int));
            }
            if common {
                merge(&mut label, a, b, Ghost(paths));
            }
            b = b + 1;
        }
        a = a + 1;
    }
    proof {
        assert forall|x: int, y: int|
            0 <= x < label@.len() && 0 <= y < label@.len() && joined(
                paths,
                x,
                y,
            ) implies #[trigger] label@[x] == #[trigger] label@[y] by {
            let c = choose|c: Seq<int>| chain(paths, c, x, y);
            lemma_chain_same_label(paths, label@, c, x, y);
        }
    }
    label
}

fn collect_group(label: &[usize], r: usize, Ghost(paths): Ghost<Seq<Seq<Seq<char>>>>) -> (group: Vec<
    usize,
>)
    requires
        labels_exact(paths, label@),
        r < label@.len(),
    ensures
        group@ == joined_upto(paths, r as int, paths.len() as int),
{
    let mut group: Vec<usize> = Vec::new();
    let mut i: usize = 0;
    while i < label.len()
        invariant
            i <= label@.len() == paths.len(),
            labels_exact(paths, label@),
            r < label@.len(),
            group@ == joined_upto(paths, r as int, i as int),
        decreases label@.len() - i,
    {
        if label[i] == label[r] {
            group.push(i);
        }
        i = i + 1;
    }
    group
}

/// Views of groups.
pub open spec fn group_views(v: Seq<Vec<usize>>) -> Seq<Seq<usize>> {
    Seq::new(v.len(), |i: int| v[i]@)
}

/// Finds the calls that have to run one after another: the groups of calls that get
/// in each other's way, each in the order of the calls, and the calls that wait for
/// an earlier one.
pub fn resolve_write_conflicts(pending: &[(String, Json)]) -> (r: (Vec<Vec<usize>>, Vec<usize>))
    ensures
        group_views(r.0@) == groups_upto(paths_of(pending@), pending@.len() as int),
        r.1@ == waiting_upto(paths_of(pending@), pending@.len() as int),
{
    let n: usize = pending.len();
    let ghost paths = paths_of(pending@);
    let mut written: Vec<Vec<String>> = Vec::new();
    let mut i: usize = 0;
    while i < n
        invariant
            i <= n == pending@.len() == paths.len(),
            paths == paths_of(pending@),
            written@.len() == i,
            forall|k: int| 0 <= k < i ==> #[trigger] paths[k] == texts(written@[k]@),
        decreases n - i,
    {
        written.push(file_write_paths(pending[i].0.as_str(), &pending[i].1));
        i = i + 1;
    }
    let label: Vec<usize> = label_groups(written.as_slice(), Ghost(paths));
    let mut groups: Vec<Vec<usize>> = Vec::new();
    let mut waiting: Vec<usize> = Vec::new();
    let mut r: usize = 0;
    proof {
        assert(group_views(groups@) =~= Seq::<Seq<usize>>::empty());
    }
    while r < n
        invariant
            r <= n == pending@.len() == paths.len() == label@.len(),
            labels_exact(paths, label@),
            group_views(groups@) == groups_upto(paths, r as int),
            waiting@ == waiting_upto(paths, r as int),
        decreases n - r,
    {
        let ghost before = group_views(groups@);
        proof {
            lemma_first(paths, label@, r as int);
        }
        if label[r] == r {
            let group: Vec<usize> = collect_group(label.as_slice(), r, Ghost(paths));
            if group.len() > 1 {
                let ghost g = group@;
                groups.push(group);
                proof {
                    assert(group_views(groups@) =~= before.push(g));
                }
            }
        } else {
            waiting.push(r);
        }
        r = r + 1;
    }
    (groups, waiting)
}

proof fn lemma_first(paths: Seq<Seq<Seq<char>>>, label: Seq<usize>, r: int)
    requires
        labels_exact(paths, label),
        0 <= r < label.len(),
    ensures
        is_first(paths, r) <==> label[r] == r,
{
    assert(label[r] <= r && label[label[r] as int] == label[r]);
    if label[r] == r {
        assert forall|k: int| 0 <= k < r implies !#[trigger] joined(paths, k, r) by {
            if joined(paths, k, r) {
                assert(label[k] == label[r]);
                assert(label[k] <= k);
            }
        }
    } else {
        let k = label[r] as int;
        assert(label[k] == label[r]);
        assert(joined(paths, k, r));
    }
}

/// Two calls that write the same path never run side by side: the later of them waits.
pub proof fn same_file_writes_are_serialized(
    paths: Seq<Seq<Seq<char>>>,
    i: int,
    j: int,
)
    requires
        0 <= i < j < paths.len(),
        share(paths, i, j),
    ensures
        !is_first(paths, j),
{
    conflicts_are_mutual_and_pass_on(paths, i, i, j);
}

/// A call that shares no path with any other waits for none.
pub proof fn independent_calls_stay_parallel(paths: Seq<Seq<Seq<char>>>, j: int)
    requires
        0 <= j < paths.len(),
        forall|i: int| 0 <= i < paths.len() && i != j ==> !#[trigger] share(paths, i, j),
    ensures
        is_first(paths, j),
{
    assert forall|k: int| 0 <= k < j implies !#[trigger] joined(paths, k, j) by {
        if joined(paths, k, j) {
            let c = choose|c: Seq<int>| chain(paths, c, k, j);
            lemma_alone(paths, c, k, j);
        }
    }
}

proof fn lemma_alone(paths: Seq<Seq<Seq<char>>>, c: Seq<int>, k: int, j: int)
    requires
        0 <= j < paths.len(),
        chain(paths, c, k, j),
        forall|i: int| 0 <= i < paths.len() && i != j ==> !#[trigger] share(paths, i, j),
    ensures
        k == j,
    decreases c.len(),
{
    let n = c.len() as int;
    if n > 1 {
        let f = c.drop_last();
        assert(share(paths, c[n - 2], c[n - 2 + 1]));
        assert(0 <= c[n - 2] < paths.len());
        if c[n - 2] == j {
            assert forall|t: int| 0 <= t < f.len() implies 0 <= #[trigger] f[t] < paths.len() by {
                assert(f[t] == c[t]);
            }
            assert forall|t: int| 0 <= t < f.len() - 1 implies share(
                paths,
                #[trigger] f[t],
                f[t + 1],
            ) by {
                assert(f[t] == c[t] && f[t + 1] == c[t + 1]);
            }
            lemma_alone(paths, f, k, j);
        }
    }
}

} // verus!
