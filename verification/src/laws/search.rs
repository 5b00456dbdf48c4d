//! What holds of every search of file contents and every listing of files.

use vstd::prelude::*;

use crate::format::dec;
use crate::grep_tool::{
    after_context, after_match, base_name, compiles, file_wanted, glob_hits, grep_plan, grep_text,
    hits, line_text, lines_text, list_at, non_empty, some_hit, unwanted_of, wanted_of,
    without_breaks, GrepRunView, LineView,
};
use crate::json::{bool_at, member, str_at, strings_of, Json};
use crate::outside::{lossy, search_error};
use crate::text::{is_blank, is_ws, trim};

verus! {

/// The globs of a call are parted by their first character: those without a `!` in front
/// are wanted and those with one are unwanted, each of them, in order, and no others.
pub proof fn globs_are_parted(globs: Seq<Seq<char>>)
    ensures
        wanted_of(globs) == globs.filter(|g: Seq<char>| !(g.len() > 0 && g[0] == '!')),
        unwanted_of(globs) == globs.filter(|g: Seq<char>| g.len() > 0 && g[0] == '!').map_values(
            |g: Seq<char>| g.skip(1),
        ),
    decreases globs.len(),
{
    reveal(Seq::filter);
    let bad = |g: Seq<char>| g.len() > 0 && g[0] == '!';
    let tail = |g: Seq<char>| g.skip(1);
    if globs.len() > 0 {
        let front = globs.drop_last();
        globs_are_parted(front);
        if bad(globs.last()) {
            assert(front.filter(bad).push(globs.last()).map_values(tail) =~= front.filter(
                bad,
            ).map_values(tail).push(tail(globs.last())));
        }
    }
    assert(wanted_of(globs) =~= globs.filter(|g: Seq<char>| !(g.len() > 0 && g[0] == '!')));
    assert(unwanted_of(globs) =~= globs.filter(bad).map_values(tail));
}

/// Every glob of a call that does not begin with `!` is among the wanted ones, and every
/// wanted one is such a glob; what stands behind each `!` is among the unwanted ones, and
/// every unwanted one stands behind a `!`.
pub proof fn every_glob_has_its_side(globs: Seq<Seq<char>>)
    ensures
        forall|i: int|
            0 <= i < globs.len() ==> (if (#[trigger] globs[i]).len() > 0 && globs[i][0] == '!' {
                unwanted_of(globs).contains(globs[i].skip(1))
            } else {
                wanted_of(globs).contains(globs[i])
            }),
        forall|g: Seq<char>| #[trigger]
            wanted_of(globs).contains(g) ==> globs.contains(g) && !(g.len() > 0 && g[0] == '!'),
        forall|g: Seq<char>| #[trigger]
            unwanted_of(globs).contains(g) ==> globs.contains(seq!['!'] + g),
    decreases globs.len(),
{
    if globs.len() > 0 {
        let front = globs.drop_last();
        let last = globs.last();
        every_glob_has_its_side(front);
        assert forall|i: int| 0 <= i < globs.len() implies (if (#[trigger] globs[i]).len() > 0
            && globs[i][0] == '!' {
            unwanted_of(globs).contains(globs[i].skip(1))
        } else {
            wanted_of(globs).contains(globs[i])
        }) by {
            if i < front.len() {
                assert(front[i] == globs[i]);
                if globs[i].len() > 0 && globs[i][0] == '!' {
                    let k = choose|k: int|
                        0 <= k < unwanted_of(front).len() && unwanted_of(front)[k] == globs[i].skip(
                            1,
                        );
                    assert(unwanted_of(globs)[k] == globs[i].skip(1));
                } else {
                    let k = choose|k: int|
                        0 <= k < wanted_of(front).len() && wanted_of(front)[k] == globs[i];
                    assert(wanted_of(globs)[k] == globs[i]);
                }
            } else if last.len() > 0 && last[0] == '!' {
                assert(unwanted_of(globs).last() == last.skip(1));
            } else {
                assert(wanted_of(globs).last() == last);
            }
        }
        assert forall|g: Seq<char>| #[trigger] wanted_of(globs).contains(g) implies globs.contains(
            g,
        ) && !(g.len() > 0 && g[0] == '!') by {
            let k = choose|k: int| 0 <= k < wanted_of(globs).len() && wanted_of(globs)[k] == g;
            if k < wanted_of(front).len() {
                assert(wanted_of(front)[k] == g);
                assert(wanted_of(front).contains(g));
                let j = choose|j: int| 0 <= j < front.len() && front[j] == g;
                assert(globs[j] == g);
            } else {
                assert(globs[globs.len() - 1] == g);
            }
        }
        assert forall|g: Seq<char>| #[trigger] unwanted_of(globs).contains(
            g,
        ) implies globs.contains(seq!['!'] + g) by {
            let k = choose|k: int| 0 <= k < unwanted_of(globs).len() && unwanted_of(globs)[k] == g;
            if k < unwanted_of(front).len() {
                assert(unwanted_of(front)[k] == g);
                assert(unwanted_of(front).contains(g));
                let j = choose|j: int| 0 <= j < front.len() && front[j] == seq!['!'] + g;
                assert(globs[j] == seq!['!'] + g);
            } else {
                assert(last =~= seq!['!'] + g);
                assert(globs[globs.len() - 1] == seq!['!'] + g);
            }
        }
    }
}

/// The globs of a search's plan are those of its call: each string of `glob` that does not
/// begin with `!` is wanted, and what stands behind a `!` is not.
pub proof fn planned_globs_are_those_of_the_call(args: Json)
    requires
        grep_plan(args) is Ok,
    ensures
        ({
            let globs = match member(args, "glob"@) {
                Some(Json::Arr(items)) => strings_of(items@),
                _ => Seq::empty(),
            };
            let plan = grep_plan(args)->Ok_0;
            &&& forall|i: int|
                0 <= i < globs.len() && !((#[trigger] globs[i]).len() > 0 && globs[i][0] == '!')
                    ==> plan.wanted.contains(globs[i])
            &&& forall|i: int|
                0 <= i < globs.len() && (#[trigger] globs[i]).len() > 0 && globs[i][0] == '!'
                    ==> plan.unwanted.contains(globs[i].skip(1))
            &&& forall|g: Seq<char>| #[trigger]
                plan.wanted.contains(g) ==> globs.contains(g) && !(g.len() > 0 && g[0] == '!')
            &&& forall|g: Seq<char>| #[trigger]
                plan.unwanted.contains(g) ==> globs.contains(seq!['!'] + g)
        }),
{
    every_glob_has_its_side(list_at(args, "glob"@));
}

/// A file that matches some glob of the call that compiles, and none behind a `!`, is
/// searched.
pub proof fn matching_file_is_searched(
    globs: Seq<Seq<char>>,
    i: int,
    rel: Seq<char>,
    backslash_separates: bool,
)
    requires
        0 <= i < globs.len(),
        !(globs[i].len() > 0 && globs[i][0] == '!'),
        glob_hits(globs[i], rel, backslash_separates),
        forall|j: int|
            0 <= j < globs.len() && (#[trigger] globs[j]).len() > 0 && globs[j][0] == '!'
                ==> !glob_hits(globs[j].skip(1), rel, backslash_separates),
    ensures
        file_wanted(wanted_of(globs), unwanted_of(globs), rel, backslash_separates),
{
    every_glob_has_its_side(globs);
    let w = wanted_of(globs);
    let u = unwanted_of(globs);
    assert(w.contains(globs[i]));
    let k = choose|k: int| 0 <= k < w.len() && w[k] == globs[i];
    assert(glob_hits(w[k], rel, backslash_separates));
    if some_hit(u, rel, backslash_separates) {
        let n = choose|n: int|
            0 <= n < u.len() && glob_hits(#[trigger] u[n], rel, backslash_separates);
        assert(u.contains(u[n]));
        let g = seq!['!'] + u[n];
        assert(globs.contains(g));
        let j = choose|j: int| 0 <= j < globs.len() && globs[j] == g;
        assert(globs[j][0] == '!');
        assert(globs[j].skip(1) =~= u[n]);
    }
}

/// A file that matches a glob behind a `!` is not searched, whatever else it matches.
pub proof fn excluded_file_is_not_searched(
    globs: Seq<Seq<char>>,
    i: int,
    rel: Seq<char>,
    backslash_separates: bool,
)
    requires
        0 <= i < globs.len(),
        globs[i].len() > 0 && globs[i][0] == '!',
        glob_hits(globs[i].skip(1), rel, backslash_separates),
    ensures
        !file_wanted(wanted_of(globs), unwanted_of(globs), rel, backslash_separates),
{
    every_glob_has_its_side(globs);
    let u = unwanted_of(globs);
    assert(u.contains(globs[i].skip(1)));
    let k = choose|k: int| 0 <= k < u.len() && u[k] == globs[i].skip(1);
    assert(glob_hits(u[k], rel, backslash_separates));
}

/// A file that matches none of the wanted globs, one of which compiles, is not searched;
/// where no wanted glob compiles, every file that is not excluded is.
pub proof fn other_files_are_not_searched(
    globs: Seq<Seq<char>>,
    rel: Seq<char>,
    backslash_separates: bool,
)
    ensures
        (exists|i: int|
            0 <= i < globs.len() && !((#[trigger] globs[i]).len() > 0 && globs[i][0] == '!')
                && compiles(globs[i], backslash_separates)) && (forall|i: int|
            0 <= i < globs.len() && !((#[trigger] globs[i]).len() > 0 && globs[i][0] == '!')
                ==> !glob_hits(globs[i], rel, backslash_separates)) ==> !file_wanted(
            wanted_of(globs),
            unwanted_of(globs),
            rel,
            backslash_separates,
        ),
        (forall|i: int|
            0 <= i < globs.len() ==> (if (#[trigger] globs[i]).len() > 0 && globs[i][0] == '!' {
                !glob_hits(globs[i].skip(1), rel, backslash_separates)
            } else {
                !compiles(globs[i], backslash_separates)
            })) ==> file_wanted(wanted_of(globs), unwanted_of(globs), rel, backslash_separates),
{
    every_glob_has_its_side(globs);
    let w = wanted_of(globs);
    let u = unwanted_of(globs);
    assert forall|n: int| 0 <= n < w.len() implies globs.contains(#[trigger] w[n]) && !(w[n].len()
        > 0 && w[n][0] == '!') by {
        assert(w.contains(w[n]));
    }
    assert forall|n: int| 0 <= n < u.len() implies globs.contains(seq!['!'] + #[trigger] u[n]) && (
    seq!['!'] + u[n]).skip(1) == u[n] by {
        assert(u.contains(u[n]));
        assert((seq!['!'] + u[n]).skip(1) =~= u[n]);
    }
    assert forall|i: int| 0 <= i < globs.len() && !((#[trigger] globs[i]).len() > 0 && globs[i][0]
        == '!') implies exists|n: int| 0 <= n < w.len() && #[trigger] w[n] == globs[i] by {
        assert(w.contains(globs[i]));
    }
    if forall|i: int|
        0 <= i < globs.len() ==> (if (#[trigger] globs[i]).len() > 0 && globs[i][0] == '!' {
            !glob_hits(globs[i].skip(1), rel, backslash_separates)
        } else {
            !compiles(globs[i], backslash_separates)
        }) {
        assert forall|n: int| 0 <= n < w.len() implies !compiles(
            #[trigger] w[n],
            backslash_separates,
        ) by {
            let i = choose|i: int| 0 <= i < globs.len() && globs[i] == w[n];
            assert(!compiles(globs[i], backslash_separates));
        }
        assert forall|n: int| 0 <= n < u.len() implies !glob_hits(
            #[trigger] u[n],
            rel,
            backslash_separates,
        ) by {
            let i = choose|i: int| 0 <= i < globs.len() && globs[i] == seq!['!'] + u[n];
            assert(globs[i][0] == '!');
        }
    }
}

/// The last name of a path is what stands behind its last slash, or all of it.
pub proof fn last_name_stands_behind_the_last_slash(dir: Seq<char>, name: Seq<char>)
    requires
        !name.contains('/'),
    ensures
        base_name(name) == name,
        base_name(dir.push('/') + name) == name,
    decreases name.len(),
{
    if name.len() == 0 {
        assert(dir.push('/') + name =~= dir.push('/'));
    } else {
        let front = name.drop_last();
        assert(!front.contains('/')) by {
            if front.contains('/') {
                let i = choose|i: int| 0 <= i < front.len() && front[i] == '/';
                assert(name[i] == '/');
            }
        }
        assert(name[name.len() - 1] != '/');
        last_name_stands_behind_the_last_slash(dir, front);
        assert((dir.push('/') + name).drop_last() =~= dir.push('/') + front);
        assert(front.push(name.last()) =~= name);
    }
}

/// A glob hits a file by its whole relative path or by its last name, and in no other way.
pub proof fn globs_see_path_and_name(
    glob: Seq<char>,
    dir: Seq<char>,
    name: Seq<char>,
    backslash_separates: bool,
)
    requires
        !name.contains('/'),
        compiles(glob, backslash_separates),
    ensures
        glob_hits(glob, dir.push('/') + name, backslash_separates) <==> (
        crate::outside::glob_found(glob, dir.push('/') + name, backslash_separates)
            || crate::outside::glob_found(glob, name, backslash_separates)),
        glob_hits(glob, name, backslash_separates) <==> crate::outside::glob_found(
            glob,
            name,
            backslash_separates,
        ),
{
    last_name_stands_behind_the_last_slash(dir, name);
}

/// A search is planned exactly when its trimmed pattern is there and compiles.
pub proof fn search_needs_a_pattern_that_compiles(args: Json, p: Seq<char>)
    requires
        str_at(args, "pattern"@) == Some(p),
    ensures
        is_blank(p) ==> grep_plan(args) is Err,
        !is_blank(p) ==> (grep_plan(args) is Ok <==> search_error(
            trim(p),
            bool_at(args, "case_sensitive"@) != Some(true),
        ) is None),
        grep_plan(args) matches Ok(plan) ==> plan.pattern == trim(p),
{
    let k = crate::laws::text::trimmed_text_has_solid_ends(p);
    if is_blank(p) {
        if trim(p).len() > 0 {
            assert(trim(p)[0] == p.subrange(k, k + trim(p).len())[0]);
            assert(p[k] == trim(p)[0]);
            assert(is_ws(p[k]));
        }
    } else if trim(p).len() == 0 {
        assert(p =~= p.take(k) + p.skip(k));
        assert forall|i: int| 0 <= i < p.len() implies is_ws(#[trigger] p[i]) by {
            if i < k {
                assert(p.take(k)[i] == p[i]);
            } else {
                assert(p.skip(k)[i - k] == p[i]);
            }
        }
    }
}

/// Case counts only where the call says so; contexts are as asked for, none by default;
/// the number of results lies from 1 to 2000, 200 by default; empty paths are dropped.
pub proof fn search_is_as_asked_for(args: Json)
    requires
        grep_plan(args) is Ok,
    ensures
        ({
            let plan = grep_plan(args)->Ok_0;
            &&& plan.insensitive <==> member(args, "case_sensitive"@) != Some(Json::Bool(true))
            &&& member(args, "context_before"@) matches Some(Json::Uint(n)) ==> plan.before == n
            &&& member(args, "context_after"@) matches Some(Json::Uint(n)) ==> plan.after == n
            &&& member(args, "context_before"@) is None ==> plan.before == 0
            &&& member(args, "context_after"@) is None ==> plan.after == 0
            &&& member(args, "max_results"@) is None ==> plan.max_results == 200
            &&& member(args, "max_results"@) matches Some(Json::Uint(n)) ==> {
                &&& n == 0 ==> plan.max_results == 1
                &&& 1 <= n <= 2000 ==> plan.max_results == n
                &&& n > 2000 ==> plan.max_results == 2000
            }
            &&& member(args, "paths"@) matches Some(Json::Arr(items)) ==> plan.paths == strings_of(
                items@,
            ).filter(|p: Seq<char>| p.len() > 0)
            &&& member(args, "paths"@) is None ==> plan.paths.len() == 0
        }),
{
    lemma_non_empty(list_at(args, "paths"@));
    assert(list_at(args, "paths"@).len() == 0 ==> non_empty(list_at(args, "paths"@)).len() == 0);
}

proof fn lemma_non_empty(items: Seq<Seq<char>>)
    ensures
        non_empty(items) == items.filter(|p: Seq<char>| p.len() > 0),
    decreases items.len(),
{
    reveal(Seq::filter);
    if items.len() > 0 {
        lemma_non_empty(items.drop_last());
    }
    assert(non_empty(items) =~= items.filter(|p: Seq<char>| p.len() > 0));
}

/// A match below the limit is taken with its path, number and text, and one above it is
/// not; a line of context never counts.
pub proof fn matches_are_taken_up_to_the_limit(
    r: GrepRunView,
    path: Seq<char>,
    line: u64,
    bytes: Seq<u8>,
)
    ensures
        ({
            let found = r.lines.filter(|l: LineView| !l.is_context).len();
            let next = after_match(r, path, line, bytes);
            &&& hits(r.lines) == found
            &&& next.max_results == r.max_results
            &&& found >= r.max_results ==> next.lines == r.lines && next.truncated
            &&& found < r.max_results ==> {
                &&& next.lines.len() == r.lines.len() + 1
                &&& next.lines.drop_last() == r.lines
                &&& next.lines.last().path == path
                &&& next.lines.last().line == line
                &&& next.lines.last().content == without_breaks(lossy(bytes))
                &&& !next.lines.last().is_context
                &&& next.truncated == r.truncated
            }
        }),
        ({
            let next = after_context(r, path, line, bytes);
            &&& next.max_results == r.max_results
            &&& next.truncated == r.truncated
            &&& r.truncated ==> next.lines == r.lines
            &&& !r.truncated ==> {
                &&& next.lines.len() == r.lines.len() + 1
                &&& next.lines.drop_last() == r.lines
                &&& next.lines.last().path == path
                &&& next.lines.last().line == line
                &&& next.lines.last().content == without_breaks(lossy(bytes))
                &&& next.lines.last().is_context
            }
        }),
{
    lemma_hits(r.lines);
    assert(after_match(r, path, line, bytes).lines.len() > r.lines.len() ==> after_match(
        r,
        path,
        line,
        bytes,
    ).lines.drop_last() =~= r.lines);
    assert(!r.truncated ==> after_context(r, path, line, bytes).lines.drop_last() =~= r.lines);
}

proof fn lemma_hits(lines: Seq<LineView>)
    ensures
        hits(lines) == lines.filter(|l: LineView| !l.is_context).len(),
    decreases lines.len(),
{
    reveal(Seq::filter);
    if lines.len() > 0 {
        lemma_hits(lines.drop_last());
    }
}

/// Line breaks are taken off the end of a line, all of them, and nothing else.
pub proof fn line_breaks_are_taken_off(s: Seq<char>)
    ensures
        without_breaks(s).is_prefix_of(s),
        without_breaks(s).len() > 0 ==> without_breaks(s).last() != '\n' && without_breaks(s).last()
            != '\r',
        forall|i: int|
            without_breaks(s).len() <= i < s.len() ==> #[trigger] s[i] == '\n' || s[i] == '\r',
    decreases s.len(),
{
    if s.len() > 0 && (s.last() == '\n' || s.last() == '\r') {
        let t = s.drop_last();
        line_breaks_are_taken_off(t);
        let k = without_breaks(t).len() as int;
        assert(s.take(k) =~= t.take(k));
        assert forall|i: int| k <= i < s.len() implies #[trigger] s[i] == '\n' || s[i] == '\r' by {
            if i < t.len() {
                assert(t[i] == s[i]);
            }
        }
    } else {
        assert(s.take(s.len() as int) =~= s);
    }
}

/// An answer shows every line in order, a match with colons and context with dashes round
/// its number, and says when the search was cut short.
pub proof fn answer_shows_every_line(r: GrepRunView, l: LineView)
    ensures
        lines_text(r.lines.push(l)) == lines_text(r.lines) + line_text(l),
        !l.is_context ==> line_text(l) == l.path + ":"@ + dec(l.line as nat) + ":"@ + l.content
            + "\n"@,
        l.is_context ==> line_text(l) == l.path + "-"@ + dec(l.line as nat) + "-"@ + l.content
            + "\n"@,
        r.lines.len() == 0 && !r.truncated ==> grep_text(r) == "(no matches)\n"@,
        r.lines.len() > 0 && !r.truncated ==> grep_text(r) == lines_text(r.lines),
        r.truncated ==> lines_text(r.lines).is_prefix_of(grep_text(r)) && grep_text(r).len()
            > lines_text(r.lines).len(),
{
    reveal_strlit("\n");
    reveal_strlit("... truncated at ");
    assert(r.lines.push(l).drop_last() =~= r.lines);
    let t = lines_text(r.lines);
    assert(t + Seq::<char>::empty() =~= t);
    if r.lines.len() > 0 {
        assert(line_text(r.lines.last()).len() > 0);
    }
    if r.truncated {
        assert(grep_text(r).take(t.len() as int) =~= t);
    }
}

/// A glob compiles where the matcher takes it and finds nothing wrong with it.
pub proof fn globs_compile_where_the_matcher_takes_them(glob: Seq<char>, backslash_separates: bool)
    ensures
        compiles(glob, backslash_separates) <==> crate::outside::fits_matcher(
            glob,
            backslash_separates,
        ) && crate::outside::glob_error(glob, backslash_separates) is None,
{
}

} // verus!
