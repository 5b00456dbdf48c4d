//! What holds of every path, and of calls that write the same file.

use vstd::prelude::*;

use crate::apply_patch_engine::parser::behind;
use crate::bounds::{
    normalized, one_further, part_of, path_parts, scanned, seen_from, within, PartView,
};
use crate::conflict::{
    groups_upto, is_first, joined, joined_upto, line_target, named_paths, patch_targets, share,
    targets_upto, waiting_upto, write_paths,
};
use crate::json::{arr_at, str_at, strings_of, Json};
use crate::text::trim;

verus! {

/// Resolving a path: `.` does nothing, `..` takes back the name before it, and names and roots
/// stay.
pub proof fn dots_are_resolved(p: Seq<PartView>, name: Seq<char>)
    ensures
        normalized(Seq::empty()).len() == 0,
        normalized(p.push(PartView::Here)) == normalized(p),
        normalized(p.push(PartView::Name(name))) == normalized(p).push(PartView::Name(name)),
        normalized(p.push(PartView::Top(name))) == normalized(p).push(PartView::Top(name)),
        normalized(p.push(PartView::Name(name)).push(PartView::Up)) == normalized(p),
{
    assert(p.push(PartView::Here).drop_last() =~= p);
    assert(p.push(PartView::Name(name)).drop_last() =~= p);
    assert(p.push(PartView::Top(name)).drop_last() =~= p);
    let q = p.push(PartView::Name(name));
    assert(q.push(PartView::Up).drop_last() =~= q);
    assert(normalized(p).push(PartView::Name(name)).drop_last() =~= normalized(p));
    assert(normalized(q).last() == PartView::Name(name));
    assert(normalized(q.push(PartView::Up)) == one_further(normalized(q), PartView::Up));
}

/// A path lies in a directory exactly when, resolved, it begins with it.
pub proof fn inside_means_below(path: Seq<PartView>, dir: Seq<PartView>)
    ensures
        within(path, dir) <==> normalized(dir).len() <= normalized(path).len() && normalized(
            path,
        ).take(normalized(dir).len() as int) == normalized(dir),
        within(dir, dir),
{
    assert(normalized(dir).take(normalized(dir).len() as int) =~= normalized(dir));
}

proof fn lemma_scan_name(path: Seq<char>, name: Seq<char>)
    requires
        !name.contains('/'),
    ensures
        scanned(path + name) == (scanned(path).0, scanned(path).1 + name),
    decreases name.len(),
{
    if name.len() == 0 {
        assert(path + name =~= path);
        assert(scanned(path).1 + name =~= scanned(path).1);
    } else {
        let front = name.drop_last();
        assert(!front.contains('/')) by {
            if front.contains('/') {
                let i = choose|i: int| 0 <= i < front.len() && front[i] == '/';
                assert(name[i] == '/');
            }
        }
        assert(name[name.len() - 1] != '/');
        lemma_scan_name(path, front);
        assert((path + name).drop_last() =~= path + front);
        assert((scanned(path).1 + front).push(name.last()) =~= scanned(path).1 + name);
    }
}

/// A name behind a slash is one part more: nothing where it is empty, else `.`, `..` or the
/// name itself.
pub proof fn slash_adds_a_part(dir: Seq<char>, name: Seq<char>)
    requires
        dir.len() > 0,
        !name.contains('/'),
    ensures
        ({
            let all = path_parts(dir.push('/') + name);
            &&& name.len() == 0 ==> all == path_parts(dir)
            &&& name == "."@ ==> all == path_parts(dir).push(PartView::Here)
            &&& name == ".."@ ==> all == path_parts(dir).push(PartView::Up)
            &&& name.len() > 0 && name != "."@ && name != ".."@ ==> all == path_parts(dir).push(
                PartView::Name(name),
            )
        }),
{
    reveal_strlit(".");
    reveal_strlit("..");
    lemma_scan_name(dir.push('/'), name);
    assert(dir.push('/').drop_last() =~= dir);
    let all = path_parts(dir.push('/') + name);
    assert(Seq::<char>::empty() + name =~= name);
    assert((dir.push('/') + name)[0] == dir[0]);
    assert(all =~= path_parts(dir) + part_of(name));
}

/// A single name is a single part, and a slash alone is the root.
pub proof fn single_names_are_single_parts(name: Seq<char>)
    requires
        name.len() > 0,
        !name.contains('/'),
        name != "."@,
        name != ".."@,
    ensures
        path_parts(name) == seq![PartView::Name(name)],
        path_parts(seq!['/'] + name) == seq![PartView::Top("/"@), PartView::Name(name)],
        path_parts(Seq::empty()).len() == 0,
{
    let none = Seq::<char>::empty();
    lemma_scan_name(none, name);
    assert(none + name =~= name);
    assert(name[0] != '/');
    assert(path_parts(name) =~= seq![PartView::Name(name)]);
    let root = seq!['/'];
    lemma_scan_name(root, name);
    assert(root.drop_last() =~= none);
    assert(part_of(none) =~= Seq::<PartView>::empty());
    assert(scanned(root) == (Seq::<PartView>::empty() + part_of(none), none));
    assert((root + name)[0] == '/');
    assert(path_parts(root + name) =~= seq![PartView::Top("/"@), PartView::Name(name)]);
}

/// A path that begins with a slash is seen from the root, and any other from the directory.
pub proof fn relative_paths_start_at_the_directory(path: Seq<char>, dir: Seq<char>)
    ensures
        path.len() > 0 && path[0] == '/' ==> seen_from(path, dir) == path_parts(path),
        path.len() == 0 || path[0] != '/' ==> seen_from(path, dir) == path_parts(dir) + path_parts(
            path,
        ),
{
}

/// The paths that a call writes: those it names, for the tools that write files; source and
/// destination of a move or a copy; the target of a copied range; the files of a patch. A call
/// of any other tool writes none.
pub proof fn writing_calls_name_their_paths(tool: Seq<char>, args: Json, p: Seq<char>)
    ensures
        tool == "write"@ || tool == "edit"@ || tool == "edit_file"@ || tool == "edit_diff"@ || tool
            == "delete"@ || tool == "patch"@ ==> {
            &&& str_at(args, "path"@) == Some(p) ==> write_paths(tool, args).contains(p)
            &&& arr_at(args, "paths"@) matches Some(items) ==> (strings_of(items).contains(p)
                ==> write_paths(tool, args).contains(p))
        },
        tool == "move"@ || tool == "copy"@ ==> {
            &&& str_at(args, "dest"@) == Some(p) ==> write_paths(tool, args).contains(p)
            &&& str_at(args, "source"@) == Some(p) ==> write_paths(tool, args).contains(p)
        },
        tool == "copy_range"@ && str_at(args, "target_path"@) == Some(p) ==> write_paths(tool, args)
            == seq![p],
        tool == "apply_patch"@ ==> (str_at(args, "patch"@) matches Some(patch) ==> write_paths(
            tool,
            args,
        ) == patch_targets(patch)),
        tool == "read"@ || tool == "grep"@ || tool == "glob"@ || tool == "exec"@ ==> write_paths(
            tool,
            args,
        ).len() == 0,
        tool == "file"@ ==> (str_at(args, "action"@) matches Some(a) ==> (a != "file"@ ==> write_paths(
            tool,
            args,
        ) == write_paths(a, args))),
{
    lemma_tool_names();
    let named = named_paths(args);
    if str_at(args, "path"@) == Some(p) {
        assert(named[0] == p);
    }
    if let Some(items) = arr_at(args, "paths"@) {
        if strings_of(items).contains(p) {
            let k = choose|k: int| 0 <= k < strings_of(items).len() && strings_of(items)[k] == p;
            let first = crate::conflict::listed(str_at(args, "path"@));
            assert(named[first.len() + k] == p);
        }
    }
    let both = crate::conflict::listed(str_at(args, "dest"@)) + crate::conflict::listed(
        str_at(args, "source"@),
    );
    if str_at(args, "dest"@) == Some(p) {
        assert(both[0] == p);
    }
    if str_at(args, "source"@) == Some(p) {
        assert(both[both.len() - 1] == p);
    }
}

proof fn lemma_tool_names()
    ensures
        "patch"@.len() == 5 && "patch"@[0] == 'p',
        "write"@.len() == 5 && "write"@[0] == 'w',
        "edit_file"@.len() == 9 && "edit_file"@[0] == 'e' && "edit_file"@[5] == 'f',
        "edit"@.len() == 4 && "edit"@[0] == 'e' && "edit"@[1] == 'd',
        "edit_diff"@.len() == 9 && "edit_diff"@[0] == 'e' && "edit_diff"@[5] == 'd',
        "delete"@.len() == 6,
        "move"@.len() == 4 && "move"@[0] == 'm',
        "copy"@.len() == 4 && "copy"@[0] == 'c',
        "todo_list"@.len() == 9 && "todo_list"@[0] == 't',
        "todo_update"@.len() == 11 && "todo_update"@[0] == 't',
        "todo_write"@.len() == 10 && "todo_write"@[0] == 't',
        "copy_range"@.len() == 10 && "copy_range"@[0] == 'c',
        "apply_patch"@.len() == 11 && "apply_patch"@[0] == 'a',
        "read"@.len() == 4 && "read"@[0] == 'r',
        "grep"@.len() == 4 && "grep"@[0] == 'g' && "grep"@[1] == 'r',
        "glob"@.len() == 4 && "glob"@[0] == 'g' && "glob"@[1] == 'l',
        "exec"@.len() == 4 && "exec"@[0] == 'e' && "exec"@[1] == 'x',
        "file"@.len() == 4 && "file"@[0] == 'f',
{
    reveal_strlit("patch");
    reveal_strlit("write");
    reveal_strlit("edit_file");
    reveal_strlit("edit");
    reveal_strlit("edit_diff");
    reveal_strlit("delete");
    reveal_strlit("move");
    reveal_strlit("copy");
    reveal_strlit("todo_list");
    reveal_strlit("todo_update");
    reveal_strlit("todo_write");
    reveal_strlit("copy_range");
    reveal_strlit("apply_patch");
    reveal_strlit("read");
    reveal_strlit("grep");
    reveal_strlit("glob");
    reveal_strlit("exec");
    reveal_strlit("file");
}

/// Every line of a patch that names a target gives one of its paths, and each path comes from
/// such a line.
pub proof fn patch_targets_are_named_by_lines(lines: Seq<Seq<char>>, n: int, p: Seq<char>)
    requires
        0 <= n <= lines.len(),
    ensures
        targets_upto(lines, n).contains(p) <==> exists|i: int|
            0 <= i < n && line_target(#[trigger] lines[i]) == Some(p),
    decreases n,
{
    if n > 0 {
        patch_targets_are_named_by_lines(lines, n - 1, p);
        let front = targets_upto(lines, n - 1);
        let all = targets_upto(lines, n);
        if all.contains(p) {
            let k = choose|k: int| 0 <= k < all.len() && all[k] == p;
            if k < front.len() {
                assert(front[k] == p);
                assert(front.contains(p));
            } else {
                assert(line_target(lines[n - 1]) == Some(p));
            }
        }
        if exists|i: int| 0 <= i < n && line_target(#[trigger] lines[i]) == Some(p) {
            let i = choose|i: int| 0 <= i < n && line_target(#[trigger] lines[i]) == Some(p);
            if i < n - 1 {
                assert(front.contains(p));
                let k = choose|k: int| 0 <= k < front.len() && front[k] == p;
                assert(all[k] == p);
            } else {
                assert(all[front.len() as int] == p);
            }
        }
    }
}

/// The lines of a patch that name a target: those that begin, white space aside, with one of
/// the four headings.
pub proof fn headings_name_targets(line: Seq<char>, p: Seq<char>)
    ensures
        trim(line) == "*** Add File: "@ + p ==> line_target(line) == Some(p),
        trim(line) == "*** Update File: "@ + p ==> line_target(line) == Some(p),
        trim(line) == "*** Delete File: "@ + p ==> line_target(line) == Some(p),
        trim(line) == "*** Move to: "@ + p ==> line_target(line) == Some(p),
        line_target(line) matches Some(q) ==> trim(line) == "*** Add File: "@ + q || trim(line)
            == "*** Update File: "@ + q || trim(line) == "*** Delete File: "@ + q || trim(line)
            == "*** Move to: "@ + q,
{
    reveal_strlit("*** Add File: ");
    reveal_strlit("*** Update File: ");
    reveal_strlit("*** Delete File: ");
    reveal_strlit("*** Move to: ");
    let t = trim(line);
    lemma_behind(t, "*** Add File: "@, p);
    lemma_behind(t, "*** Update File: "@, p);
    lemma_behind(t, "*** Delete File: "@, p);
    lemma_behind(t, "*** Move to: "@, p);
    assert("*** Add File: "@[4] == 'A' && "*** Update File: "@[4] == 'U');
    assert("*** Delete File: "@[4] == 'D' && "*** Move to: "@[4] == 'M');
    if line_target(line) is Some {
        let q = line_target(line)->0;
        lemma_behind(t, "*** Add File: "@, q);
        lemma_behind(t, "*** Update File: "@, q);
        lemma_behind(t, "*** Delete File: "@, q);
        lemma_behind(t, "*** Move to: "@, q);
    }
}

proof fn lemma_behind(t: Seq<char>, prefix: Seq<char>, p: Seq<char>)
    requires
        prefix.len() > 4,
    ensures
        t == prefix + p ==> behind(t, prefix) == Some(p),
        behind(t, prefix) == Some(p) ==> t == prefix + p,
        behind(t, prefix) is Some ==> t.len() > 4 && t[4] == prefix[4],
{
    if t == prefix + p {
        assert(t.take(prefix.len() as int) =~= prefix);
        assert(t.skip(prefix.len() as int) =~= p);
    }
    if behind(t, prefix) == Some(p) {
        assert(t =~= prefix + t.skip(prefix.len() as int));
    }
    if behind(t, prefix) is Some {
        assert(t.take(prefix.len() as int)[4] == t[4]);
    }
}

/// A call waits exactly when it gets in the way of an earlier one.
pub proof fn calls_wait_for_earlier_ones(paths: Seq<Seq<Seq<char>>>, n: int, j: int)
    requires
        0 <= n <= paths.len(),
        0 <= j < n,
        paths.len() <= usize::MAX,
    ensures
        waiting_upto(paths, n).contains(j as usize) <==> exists|k: int|
            0 <= k < j && #[trigger] joined(paths, k, j),
    decreases n,
{
    lemma_waiting_below(paths, n);
    let front = waiting_upto(paths, n - 1);
    let all = waiting_upto(paths, n);
    if j < n - 1 {
        calls_wait_for_earlier_ones(paths, n - 1, j);
        if all.contains(j as usize) {
            let k = choose|k: int| 0 <= k < all.len() && all[k] == j as usize;
            assert(k < front.len());
            assert(front[k] == j as usize);
        }
        if front.contains(j as usize) {
            let k = choose|k: int| 0 <= k < front.len() && front[k] == j as usize;
            assert(all[k] == j as usize);
        }
    } else {
        lemma_waiting_below(paths, n - 1);
        if is_first(paths, j) {
            if all.contains(j as usize) {
                let k = choose|k: int| 0 <= k < all.len() && all[k] == j as usize;
                assert(front[k] < n - 1);
            }
        } else {
            assert(all[all.len() - 1] == j as usize);
        }
    }
}

proof fn lemma_waiting_below(paths: Seq<Seq<Seq<char>>>, n: int)
    requires
        0 <= n <= paths.len(),
        paths.len() <= usize::MAX,
    ensures
        forall|k: int| 0 <= k < waiting_upto(paths, n).len() ==> #[trigger] waiting_upto(paths, n)[k] < n,
    decreases n,
{
    if n > 0 {
        lemma_waiting_below(paths, n - 1);
        let front = waiting_upto(paths, n - 1);
        let all = waiting_upto(paths, n);
        assert forall|k: int| 0 <= k < all.len() implies #[trigger] all[k] < n by {
            if k < front.len() {
                assert(all[k] == front[k]);
            }
        }
    }
}

/// A group holds the calls that get in the way of its first one, all of them.
pub proof fn group_holds_all_that_conflict(paths: Seq<Seq<Seq<char>>>, r: int, n: int, j: int)
    requires
        0 <= n <= paths.len(),
        0 <= j < n,
        paths.len() <= usize::MAX,
    ensures
        joined_upto(paths, r, n).contains(j as usize) <==> joined(paths, r, j),
    decreases n,
{
    lemma_joined_below(paths, r, n - 1);
    let front = joined_upto(paths, r, n - 1);
    let all = joined_upto(paths, r, n);
    if j < n - 1 {
        group_holds_all_that_conflict(paths, r, n - 1, j);
        if all.contains(j as usize) {
            let k = choose|k: int| 0 <= k < all.len() && all[k] == j as usize;
            assert(k < front.len());
            assert(front[k] == j as usize);
        }
        if front.contains(j as usize) {
            let k = choose|k: int| 0 <= k < front.len() && front[k] == j as usize;
            assert(all[k] == j as usize);
        }
    } else if joined(paths, r, j) {
        assert(all[all.len() - 1] == j as usize);
    } else if all.contains(j as usize) {
        let k = choose|k: int| 0 <= k < all.len() && all[k] == j as usize;
        assert(front[k] < n - 1);
    }
}

proof fn lemma_joined_below(paths: Seq<Seq<Seq<char>>>, r: int, n: int)
    requires
        0 <= n <= paths.len(),
        paths.len() <= usize::MAX,
    ensures
        forall|k: int|
            0 <= k < joined_upto(paths, r, n).len() ==> #[trigger] joined_upto(paths, r, n)[k] < n,
    decreases n,
{
    if n > 0 {
        lemma_joined_below(paths, r, n - 1);
        let front = joined_upto(paths, r, n - 1);
        let all = joined_upto(paths, r, n);
        assert forall|k: int| 0 <= k < all.len() implies #[trigger] all[k] < n by {
            if k < front.len() {
                assert(all[k] == front[k]);
            }
        }
    }
}

/// The groups are those of the calls that wait for none and that others wait for.
pub proof fn groups_begin_with_a_first_call(paths: Seq<Seq<Seq<char>>>, n: int, r: int)
    requires
        0 <= r < n <= paths.len(),
        is_first(paths, r),
        joined_upto(paths, r, paths.len() as int).len() > 1,
    ensures
        groups_upto(paths, n).contains(joined_upto(paths, r, paths.len() as int)),
    decreases n,
{
    let front = groups_upto(paths, n - 1);
    let all = groups_upto(paths, n);
    let group = joined_upto(paths, r, paths.len() as int);
    if r < n - 1 {
        groups_begin_with_a_first_call(paths, n - 1, r);
        let k = choose|k: int| 0 <= k < front.len() && front[k] == group;
        assert(all[k] == group);
    } else {
        assert(all[all.len() - 1] == group);
    }
}

/// A `..` in front of which there is no name stays: behind a root, or at the very start.
pub proof fn dots_at_the_root_stay(p: Seq<PartView>)
    ensures
        normalized(p).len() == 0 || normalized(p).last() is Top ==> normalized(
            p.push(PartView::Up),
        ) == normalized(p).push(PartView::Up),
        normalized(p).len() > 0 && !(normalized(p).last() is Top) ==> normalized(
            p.push(PartView::Up),
        ) == normalized(p).drop_last(),
{
    assert(p.push(PartView::Up).drop_last() =~= p);
}

/// Two calls get in each other's way directly exactly when they write a path in common.
pub proof fn sharing_is_a_common_path(paths: Seq<Seq<Seq<char>>>, i: int, j: int)
    ensures
        share(paths, i, j) <==> exists|p: Seq<char>|
            paths[i].contains(p) && #[trigger] paths[j].contains(p),
{
    if share(paths, i, j) {
        let (a, b) = choose|a: int, b: int|
            0 <= a < paths[i].len() && 0 <= b < paths[j].len() && #[trigger] paths[i][a]
                == #[trigger] paths[j][b];
        assert(paths[i].contains(paths[i][a]) && paths[j].contains(paths[i][a]));
    }
    if exists|p: Seq<char>| paths[i].contains(p) && #[trigger] paths[j].contains(p) {
        let p = choose|p: Seq<char>| paths[i].contains(p) && #[trigger] paths[j].contains(p);
        let a = choose|a: int| 0 <= a < paths[i].len() && paths[i][a] == p;
        let b = choose|b: int| 0 <= b < paths[j].len() && paths[j][b] == p;
        assert(paths[i][a] == paths[j][b]);
    }
}

} // verus!
