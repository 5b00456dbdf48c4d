//! Searching file contents: what is searched for, which files are looked at, what is
//! kept of the matches and how they are shown.

use vstd::prelude::*;

use crate::bounds::{parts, path_within_workspace, within, Part};
use crate::format::{dec, decimal};
use crate::json::{arr_at, bool_at, str_at, string_items, strings_of, texts, u64_at, Json};
use crate::laws::search::every_glob_has_its_side;
use crate::ledger::{record_grep, Ledger, LedgerView};
use crate::outside::{
    debug_format, debug_text, fits_matcher, glob_check, glob_error, glob_found, glob_is_match,
    glob_next, glob_state, lossy, lossy_text, open_braces, search_check, search_error, system,
    GlobState, System, GLOB_LIMIT, GLOB_NESTING,
};
use crate::refusal::{plain_refusal, refuse, Refusal, RefusalView};
use crate::text::{chars_of, slice_of, string_of, trim, trim_of};

verus! {

/// How many matches are given when no number is asked for.
pub const DEFAULT_MAX_RESULTS: u64 = 200;

/// How many matches are given at most.
pub const MAX_RESULTS_CAP: u64 = 2000;

/// The number that a call asks for, or a default, kept from 1 to a cap.
pub open spec fn limit_of(args: Json, default: u64, cap: u64) -> u64 {
    let n = match u64_at(args, "max_results"@) {
        Some(n) => n,
        None => default,
    };
    if n < 1 {
        1
    } else if n > cap {
        cap
    } else {
        n
    }
}

/// The number that a call asks for, or a default, kept from 1 to a cap.
pub fn limit_from(args: &Json, default: u64, cap: u64) -> (n: u64)
    ensures
        n == limit_of(*args, default, cap),
{
    let n: u64 = match args.get_u64("max_results") {
        Some(n) => n,
        None => default,
    };
    if n < 1 {
        1
    } else if n > cap {
        cap
    } else {
        n
    }
}

/// A search that can be run.
#[derive(Debug, PartialEq, Eq)]
pub struct GrepCall {
    pub pattern: String,
    pub insensitive: bool,
    pub before: u64,
    pub after: u64,
    pub max_results: u64,
    /// The globs of which a file must match one, if there are any.
    pub wanted: Vec<String>,
    /// The globs of which a file must match none.
    pub unwanted: Vec<String>,
    /// Where to search; the whole workspace when there is nothing.
    pub paths: Vec<String>,
}

/// What a search says.
#[verifier::ext_equal]
pub struct GrepCallView {
    pub pattern: Seq<char>,
    pub insensitive: bool,
    pub before: u64,
    pub after: u64,
    pub max_results: u64,
    pub wanted: Seq<Seq<char>>,
    pub unwanted: Seq<Seq<char>>,
    pub paths: Seq<Seq<char>>,
}

impl View for GrepCall {
    type V = GrepCallView;

    open spec fn view(&self) -> GrepCallView {
        GrepCallView {
            pattern: self.pattern@,
            insensitive: self.insensitive,
            before: self.before,
            after: self.after,
            max_results: self.max_results,
            wanted: texts(self.wanted@),
            unwanted: texts(self.unwanted@),
            paths: texts(self.paths@),
        }
    }
}

/// The pattern of a call, trimmed.
pub open spec fn pattern_of(args: Json) -> Seq<char> {
    match str_at(args, "pattern"@) {
        Some(p) => trim(p),
        None => Seq::empty(),
    }
}

/// The pattern of a call, trimmed.
pub fn pattern_from(args: &Json) -> (p: String)
    ensures
        p@ == pattern_of(*args),
{
    match args.get_str("pattern") {
        Some(p) => string_of(trim_of(chars_of(p).as_slice()).as_slice()),
        None => {
            proof {
                reveal_strlit("");
                assert(""@ =~= Seq::<char>::empty());
            }
            "".to_owned()
        },
    }
}

/// The strings of an array member.
pub open spec fn list_at(args: Json, key: Seq<char>) -> Seq<Seq<char>> {
    match arr_at(args, key) {
        Some(items) => strings_of(items),
        None => Seq::empty(),
    }
}

/// The globs that a file must match, in order.
pub open spec fn wanted_of(globs: Seq<Seq<char>>) -> Seq<Seq<char>>
    decreases globs.len(),
{
    if globs.len() == 0 {
        Seq::empty()
    } else {
        let g = globs.last();
        if g.len() > 0 && g[0] == '!' {
            wanted_of(globs.drop_last())
        } else {
            wanted_of(globs.drop_last()).push(g)
        }
    }
}

/// The globs behind a `!`, which a file must not match, in order.
pub open spec fn unwanted_of(globs: Seq<Seq<char>>) -> Seq<Seq<char>>
    decreases globs.len(),
{
    if globs.len() == 0 {
        Seq::empty()
    } else {
        let g = globs.last();
        if g.len() > 0 && g[0] == '!' {
            unwanted_of(globs.drop_last()).push(g.skip(1))
        } else {
            unwanted_of(globs.drop_last())
        }
    }
}

/// The texts that are not empty, in order.
pub open spec fn non_empty(items: Seq<Seq<char>>) -> Seq<Seq<char>>
    decreases items.len(),
{
    if items.len() == 0 {
        Seq::empty()
    } else if items.last().len() > 0 {
        non_empty(items.drop_last()).push(items.last())
    } else {
        non_empty(items.drop_last())
    }
}

/// A context size that the arguments give.
pub open spec fn lines_at(args: Json, key: Seq<char>) -> u64 {
    match u64_at(args, key) {
        Some(n) => n,
        None => 0,
    }
}

/// The search that a call asks for, or why there is none: a pattern is needed, and it
/// must compile.
pub open spec fn grep_plan(args: Json) -> Result<GrepCallView, RefusalView> {
    let pattern = pattern_of(args);
    let insensitive = bool_at(args, "case_sensitive"@) != Some(true);
    if pattern.len() == 0 {
        Err(
            plain_refusal(
                ""@,
                "grep: 'pattern' is required (regex, e.g. \"fn main\" or \"TODO|FIXME\")"@,
                None,
            ),
        )
    } else {
        match search_error(pattern, insensitive) {
            Some(e) => Err(
                plain_refusal(
                    ""@,
                    "grep: invalid regex "@ + debug_text(pattern) + ": "@ + e,
                    None,
                ),
            ),
            None => Ok(
                GrepCallView {
                    pattern,
                    insensitive,
                    before: lines_at(args, "context_before"@),
                    after: lines_at(args, "context_after"@),
                    max_results: limit_of(args, DEFAULT_MAX_RESULTS, MAX_RESULTS_CAP),
                    wanted: wanted_of(list_at(args, "glob"@)),
                    unwanted: unwanted_of(list_at(args, "glob"@)),
                    paths: non_empty(list_at(args, "paths"@)),
                },
            ),
        }
    }
}

fn list_from(args: &Json, key: &str) -> (out: Vec<String>)
    ensures
        texts(out@) == list_at(*args, key@),
{
    match args.get_array(key) {
        Some(items) => string_items(items.as_slice()),
        None => {
            let out: Vec<String> = Vec::new();
            proof {
                assert(texts(out@) =~= Seq::<Seq<char>>::empty());
            }
            out
        },
    }
}

fn split_globs(globs: &[String]) -> (r: (Vec<String>, Vec<String>))
    ensures
        texts(r.0@) == wanted_of(texts(globs@)),
        texts(r.1@) == unwanted_of(texts(globs@)),
        forall|i: int|
            0 <= i < globs@.len() ==> (if (#[trigger] globs@[i])@.len() > 0 && globs@[i]@[0] == '!' {
                texts(r.1@).contains(globs@[i]@.skip(1))
            } else {
                texts(r.0@).contains(globs@[i]@)
            }),
{
    let mut wanted: Vec<String> = Vec::new();
    let mut unwanted: Vec<String> = Vec::new();
    let mut i: usize = 0;
    proof {
        assert(texts(globs@).take(0) =~= Seq::<Seq<char>>::empty());
        assert(texts(wanted@) =~= Seq::<Seq<char>>::empty());
        assert(texts(unwanted@) =~= Seq::<Seq<char>>::empty());
    }
    while i < globs.len()
        invariant
            i <= globs@.len(),
            texts(wanted@) == wanted_of(texts(globs@).take(i as int)),
            texts(unwanted@) == unwanted_of(texts(globs@).take(i as int)),
        decreases globs@.len() - i,
    {
        let ghost (w, u) = (wanted@, unwanted@);
        proof {
            let t = texts(globs@).take(i + 1);
            assert(t.drop_last() =~= texts(globs@).take(i as int));
            assert(t.last() == globs@[i as int]@);
        }
        let s: Vec<char> = chars_of(globs[i].as_str());
        if s.len() > 0 && s[0] == '!' {
            let rest: Vec<char> = slice_of(s.as_slice(), 1, s.len());
            unwanted.push(string_of(rest.as_slice()));
            proof {
                assert(rest@ =~= s@.skip(1));
                assert(texts(unwanted@) =~= texts(u).push(s@.skip(1)));
            }
        } else {
            wanted.push(globs[i].clone());
            proof {
                assert(texts(wanted@) =~= texts(w).push(s@));
            }
        }
        i = i + 1;
    }
    proof {
        assert(texts(globs@).take(i as int) =~= texts(globs@));
        every_glob_has_its_side(texts(globs@));
        assert forall|k: int| 0 <= k < globs@.len() implies (if (#[trigger] globs@[k])@.len() > 0
            && globs@[k]@[0] == '!' {
            texts(unwanted@).contains(globs@[k]@.skip(1))
        } else {
            texts(wanted@).contains(globs@[k]@)
        }) by {
            assert(texts(globs@)[k] == globs@[k]@);
        }
    }
    (wanted, unwanted)
}

fn without_empty(items: &[String]) -> (out: Vec<String>)
    ensures
        texts(out@) == non_empty(texts(items@)),
{
    let mut out: Vec<String> = Vec::new();
    let mut i: usize = 0;
    proof {
        assert(texts(items@).take(0) =~= Seq::<Seq<char>>::empty());
        assert(texts(out@) =~= Seq::<Seq<char>>::empty());
    }
    while i < items.len()
        invariant
            i <= items@.len(),
            texts(out@) == non_empty(texts(items@).take(i as int)),
        decreases items@.len() - i,
    {
        let ghost before = out@;
        proof {
            let t = texts(items@).take(i + 1);
            assert(t.drop_last() =~= texts(items@).take(i as int));
            assert(t.last() == items@[i as int]@);
        }
        if !items[i].as_str().is_empty() {
            out.push(items[i].clone());
            proof {
                assert(texts(out@) =~= texts(before).push(items@[i as int]@));
            }
        }
        i = i + 1;
    }
    proof {
        assert(texts(items@).take(i as int) =~= texts(items@));
    }
    out
}

/// Reads a search out of a call's arguments.
pub fn plan_grep(args: &Json) -> (r: Result<GrepCall, Refusal>)
    ensures
        match grep_plan(*args) {
            Ok(v) => r matches Ok(c) && c@ == v,
            Err(e) => r matches Err(f) && f@ == e,
        },
{
    let pattern: String = pattern_from(args);
    if pattern.as_str().is_empty() {
        return Err(
            refuse(
                "",
                "grep: 'pattern' is required (regex, e.g. \"fn main\" or \"TODO|FIXME\")".to_owned(),
                None,
            ),
        );
    }
    let insensitive: bool = match args.get_bool("case_sensitive") {
        Some(b) => !b,
        None => true,
    };
    match search_check(pattern.as_str(), insensitive) {
        Some(e) => {
            let mut message: String = "grep: invalid regex ".to_owned();
            message.append(debug_format(pattern.as_str()).as_str());
            message.append(": ");
            message.append(e.as_str());
            return Err(refuse("", message, None));
        },
        None => {},
    }
    let globs: Vec<String> = list_from(args, "glob");
    let (wanted, unwanted) = split_globs(globs.as_slice());
    let given: Vec<String> = list_from(args, "paths");
    Ok(
        GrepCall {
            pattern,
            insensitive,
            before: match args.get_u64("context_before") {
                Some(n) => n,
                None => 0,
            },
            after: match args.get_u64("context_after") {
                Some(n) => n,
                None => 0,
            },
            max_results: limit_from(args, DEFAULT_MAX_RESULTS, MAX_RESULTS_CAP),
            wanted,
            unwanted,
            paths: without_empty(given.as_slice()),
        },
    )
}

/// Whether a glob compiles; one that is too long or too deeply nested does not.
pub open spec fn compiles(glob: Seq<char>, backslash_separates: bool) -> bool {
    fits_matcher(glob, backslash_separates) && glob_error(glob, backslash_separates) is None
}

/// The last name of a relative path.
pub open spec fn base_name(rel: Seq<char>) -> Seq<char>
    decreases rel.len(),
{
    if rel.len() == 0 || rel.last() == '/' {
        Seq::empty()
    } else {
        base_name(rel.drop_last()).push(rel.last())
    }
}

/// Whether a glob that compiles matches a relative path or its last name.
pub open spec fn glob_hits(glob: Seq<char>, rel: Seq<char>, backslash_separates: bool) -> bool {
    compiles(glob, backslash_separates) && (glob_found(glob, rel, backslash_separates)
        || glob_found(glob, base_name(rel), backslash_separates))
}

/// Whether one of some globs matches.
pub open spec fn some_hit(
    globs: Seq<Seq<char>>,
    rel: Seq<char>,
    backslash_separates: bool,
) -> bool {
    exists|i: int|
        0 <= i < globs.len() && glob_hits(#[trigger] globs[i], rel, backslash_separates)
}

/// Whether one of some globs compiles.
pub open spec fn some_compiles(globs: Seq<Seq<char>>, backslash_separates: bool) -> bool {
    exists|i: int| 0 <= i < globs.len() && compiles(#[trigger] globs[i], backslash_separates)
}

/// Whether a file is searched: it matches a wanted glob, if any compiles, and no
/// unwanted one. Globs that do not compile are left out.
pub open spec fn file_wanted(
    wanted: Seq<Seq<char>>,
    unwanted: Seq<Seq<char>>,
    rel: Seq<char>,
    backslash_separates: bool,
) -> bool {
    (!some_compiles(wanted, backslash_separates) || some_hit(wanted, rel, backslash_separates))
        && !some_hit(unwanted, rel, backslash_separates)
}

fn next_state(state: GlobState, c: char, backslash_separates: bool) -> (r: GlobState)
    ensures
        r == glob_next(state, c, backslash_separates),
{
    match state {
        GlobState::Plain => if c == '[' {
            GlobState::ClassStart
        } else if c == '\\' && !backslash_separates {
            GlobState::Escaped
        } else {
            GlobState::Plain
        },
        GlobState::Escaped => GlobState::Plain,
        GlobState::ClassStart => if c == '!' || c == '^' {
            GlobState::ClassFirst
        } else {
            GlobState::Class
        },
        GlobState::ClassFirst => GlobState::Class,
        GlobState::Class => if c == ']' {
            GlobState::Plain
        } else {
            GlobState::Class
        },
    }
}

/// Whether a glob can be handed to the matcher, where a backslash separates names or does
/// not.
pub fn glob_fits(glob: &str, backslash_separates: bool) -> (r: bool)
    ensures
        r == fits_matcher(glob@, backslash_separates),
{
    let s: Vec<char> = chars_of(glob);
    if s.len() >= GLOB_LIMIT {
        return false;
    }
    let mut depth: usize = 0;
    let mut state: GlobState = GlobState::Plain;
    let mut i: usize = 0;
    while i < s.len()
        invariant
            s@ == glob@,
            i <= s@.len() < GLOB_LIMIT,
            depth <= GLOB_NESTING,
            state == glob_state(s@.take(i as int), backslash_separates),
            depth == open_braces(s@.take(i as int), backslash_separates),
            forall|j: int|
                0 <= j <= i ==> open_braces(#[trigger] s@.take(j), backslash_separates)
                    <= GLOB_NESTING,
        decreases s@.len() - i,
    {
        proof {
            assert(s@.take(i + 1).drop_last() =~= s@.take(i as int));
            assert(s@.take(i + 1).last() == s@[i as int]);
        }
        if state == GlobState::Plain {
            if s[i] == '{' {
                depth = depth + 1;
                if depth > GLOB_NESTING {
                    return false;
                }
            } else if s[i] == '}' && depth > 0 {
                depth = depth - 1;
            }
        }
        state = next_state(state, s[i], backslash_separates);
        i = i + 1;
    }
    true
}

fn glob_ok(glob: &str, on: &System) -> (r: bool)
    ensures
        r == compiles(glob@, on.separates()),
{
    glob_fits(glob, on.is_separating()) && glob_check(glob, on).is_none()
}

fn find_base_name(rel: &str) -> (out: String)
    ensures
        out@ == base_name(rel@),
{
    let s: Vec<char> = chars_of(rel);
    let n: usize = s.len();
    let mut k: usize = n;
    proof {
        assert(s@.take(n as int) =~= s@);
        assert(s@.subrange(n as int, n as int) =~= Seq::<char>::empty());
        assert(base_name(s@) + s@.subrange(n as int, n as int) =~= base_name(s@));
    }
    while k > 0 && s[k - 1] != '/'
        invariant
            k <= n,
            n == s@.len(),
            s@ == rel@,
            base_name(s@) == base_name(s@.take(k as int)) + s@.subrange(k as int, n as int),
        decreases k,
    {
        proof {
            let t = s@.take(k as int);
            assert(t.drop_last() =~= s@.take(k - 1));
            assert(t.last() == s@[k - 1]);
            assert(base_name(s@.take(k - 1)).push(s@[k - 1]) + s@.subrange(k as int, n as int)
                =~= base_name(s@.take(k - 1)) + s@.subrange(k - 1, n as int));
        }
        k = k - 1;
    }
    proof {
        if k > 0 {
            assert(s@.take(k as int).last() == s@[k - 1]);
        }
        assert(base_name(s@.take(k as int)) =~= Seq::<char>::empty());
        assert(base_name(s@) =~= s@.subrange(k as int, n as int));
    }
    string_of(slice_of(s.as_slice(), k, n).as_slice())
}

fn any_hit(globs: &[String], rel: &str, base: &str, on: &System) -> (r: (bool, bool))
    requires
        base@ == base_name(rel@),
    ensures
        r == (
            some_compiles(texts(globs@), on.separates()),
            some_hit(texts(globs@), rel@, on.separates()),
        ),
{
    let mut valid: bool = false;
    let mut hit: bool = false;
    let mut i: usize = 0;
    let ghost sep = on.separates();
    while i < globs.len()
        invariant
            i <= globs@.len(),
            base@ == base_name(rel@),
            sep == on.separates(),
            valid == exists|j: int| 0 <= j < i && compiles(#[trigger] texts(globs@)[j], sep),
            hit == exists|j: int| 0 <= j < i && glob_hits(#[trigger] texts(globs@)[j], rel@, sep),
        decreases globs@.len() - i,
    {
        let g: &str = globs[i].as_str();
        let ghost (v, h) = (valid, hit);
        let ghost t = texts(globs@);
        proof {
            assert(t[i as int] == g@);
        }
        if glob_ok(g, on) {
            valid = true;
            if glob_is_match(g, rel, on) || glob_is_match(g, base, on) {
                hit = true;
            }
        }
        proof {
            let now_valid = compiles(t[i as int], sep);
            let now_hit = glob_hits(t[i as int], rel@, sep);
            assert(valid == (v || now_valid));
            assert(hit == (h || now_hit));
            assert((exists|j: int| 0 <= j < i + 1 && compiles(#[trigger] t[j], sep)) == (v
                || now_valid)) by {
                if v {
                    let j = choose|j: int| 0 <= j < i && compiles(#[trigger] t[j], sep);
                    assert(compiles(t[j], sep));
                }
            }
            assert((exists|j: int| 0 <= j < i + 1 && glob_hits(#[trigger] t[j], rel@, sep)) == (h
                || now_hit)) by {
                if h {
                    let j = choose|j: int| 0 <= j < i && glob_hits(#[trigger] t[j], rel@, sep);
                    assert(glob_hits(t[j], rel@, sep));
                }
            }
        }
        i = i + 1;
    }
    (valid, hit)
}

/// Whether a file is searched, by its path relative to the workspace. Globs are
/// matched against the path and against its last name, a backslash being read as the
/// system reads it.
pub fn wants_file(call: &GrepCall, rel: &str) -> (r: bool)
    ensures
        exists|backslash_separates: bool|
            r == #[trigger] file_wanted(
                call@.wanted,
                call@.unwanted,
                rel@,
                backslash_separates,
            ),
{
    let on: System = system();
    let base: String = find_base_name(rel);
    let (limited, hit) = any_hit(call.wanted.as_slice(), rel, base.as_str(), &on);
    let (_, bad) = any_hit(call.unwanted.as_slice(), rel, base.as_str(), &on);
    let r: bool = (!limited || hit) && !bad;
    proof {
        assert(r == file_wanted(call@.wanted, call@.unwanted, rel@, on.separates()));
    }
    r
}

/// Refuses a path to search that leads out of the workspace.
pub fn check_root(path: &str, abs: &[Part], workspace: &[Part]) -> (r: Result<(), Refusal>)
    ensures
        if within(parts(abs@), parts(workspace@)) {
            r is Ok
        } else {
            r matches Err(f) && f@ == plain_refusal(
                ""@,
                "grep: path "@ + debug_text(path@)
                    + " resolves outside the workspace — search is workspace-bounded"@,
                None,
            )
        },
{
    if path_within_workspace(abs, workspace) {
        return Ok(());
    }
    let mut message: String = "grep: path ".to_owned();
    message.append(debug_format(path).as_str());
    message.append(" resolves outside the workspace — search is workspace-bounded");
    Err(refuse("", message, None))
}

/// A line of the answer.
#[derive(Debug, PartialEq, Eq)]
pub struct MatchLine {
    pub path: String,
    pub line: u64,
    pub content: String,
    pub is_context: bool,
}

/// What a line says.
#[verifier::ext_equal]
pub struct LineView {
    pub path: Seq<char>,
    pub line: u64,
    pub content: Seq<char>,
    pub is_context: bool,
}

impl View for MatchLine {
    type V = LineView;

    open spec fn view(&self) -> LineView {
        LineView {
            path: self.path@,
            line: self.line,
            content: self.content@,
            is_context: self.is_context,
        }
    }
}

/// The views of some lines.
pub open spec fn line_views(v: Seq<MatchLine>) -> Seq<LineView> {
    Seq::new(v.len(), |i: int| v[i]@)
}

/// How many of some lines are matches.
pub open spec fn hits(lines: Seq<LineView>) -> nat
    decreases lines.len(),
{
    if lines.len() == 0 {
        0
    } else {
        hits(lines.drop_last()) + (if lines.last().is_context {
            0nat
        } else {
            1
        })
    }
}

/// The state of a search.
#[derive(Debug, PartialEq, Eq)]
pub struct GrepRun {
    pub max_results: u64,
    pub lines: Vec<MatchLine>,
    pub truncated: bool,
}

/// What a search has found.
#[verifier::ext_equal]
pub struct GrepRunView {
    pub max_results: u64,
    pub lines: Seq<LineView>,
    pub truncated: bool,
}

impl View for GrepRun {
    type V = GrepRunView;

    open spec fn view(&self) -> GrepRunView {
        GrepRunView {
            max_results: self.max_results,
            lines: line_views(self.lines@),
            truncated: self.truncated,
        }
    }
}

/// A text without the line breaks at its end.
pub open spec fn without_breaks(s: Seq<char>) -> Seq<char>
    decreases s.len(),
{
    if s.len() > 0 && (s.last() == '\n' || s.last() == '\r') {
        without_breaks(s.drop_last())
    } else {
        s
    }
}

fn drop_breaks(text: &str) -> (out: String)
    ensures
        out@ == without_breaks(text@),
{
    let s: Vec<char> = chars_of(text);
    let mut k: usize = s.len();
    proof {
        assert(s@.take(k as int) =~= s@);
    }
    while k > 0 && (s[k - 1] == '\n' || s[k - 1] == '\r')
        invariant
            k <= s@.len(),
            s@ == text@,
            without_breaks(text@) == without_breaks(s@.take(k as int)),
        decreases k,
    {
        proof {
            assert(s@.take(k as int).drop_last() =~= s@.take(k - 1));
            assert(s@.take(k as int).last() == s@[k - 1]);
        }
        k = k - 1;
    }
    proof {
        if k > 0 {
            assert(s@.take(k as int).last() == s@[k - 1]);
        }
        assert(s@.subrange(0, k as int) =~= s@.take(k as int));
    }
    string_of(slice_of(s.as_slice(), 0, k).as_slice())
}

/// A search after a match in a file: a match too many is left out and ends the search.
pub open spec fn after_match(
    r: GrepRunView,
    path: Seq<char>,
    line: u64,
    bytes: Seq<u8>,
) -> GrepRunView {
    if hits(r.lines) >= r.max_results {
        GrepRunView { truncated: true, ..r }
    } else {
        GrepRunView {
            lines: r.lines.push(
                LineView { path, line, content: without_breaks(lossy(bytes)), is_context: false },
            ),
            ..r
        }
    }
}

/// A search after a line of context.
pub open spec fn after_context(
    r: GrepRunView,
    path: Seq<char>,
    line: u64,
    bytes: Seq<u8>,
) -> GrepRunView {
    if r.truncated {
        r
    } else {
        GrepRunView {
            lines: r.lines.push(
                LineView { path, line, content: without_breaks(lossy(bytes)), is_context: true },
            ),
            ..r
        }
    }
}

impl GrepRun {
    /// A search that has found nothing yet.
    pub fn new(max_results: u64) -> (r: Self)
        ensures
            r@ == (GrepRunView { max_results, lines: Seq::empty(), truncated: false }),
    {
        let r = GrepRun { max_results, lines: Vec::new(), truncated: false };
        proof {
            assert(line_views(r.lines@) =~= Seq::<LineView>::empty());
        }
        r
    }

    /// How many matches have been found.
    pub fn count(&self) -> (n: usize)
        ensures
            n == hits(self@.lines),
            n <= self.lines@.len(),
    {
        let mut n: usize = 0;
        let mut i: usize = 0;
        proof {
            assert(self@.lines.take(0) =~= Seq::<LineView>::empty());
        }
        while i < self.lines.len()
            invariant
                n <= i <= self.lines@.len(),
                n == hits(self@.lines.take(i as int)),
            decreases self.lines@.len() - i,
        {
            proof {
                let t = self@.lines.take(i + 1);
                assert(t.drop_last() =~= self@.lines.take(i as int));
                assert(t.last() == self.lines@[i as int]@);
            }
            if !self.lines[i].is_context {
                n = n + 1;
            }
            i = i + 1;
        }
        proof {
            assert(self@.lines.take(i as int) =~= self@.lines);
        }
        n
    }

    /// Whether another file is searched; when enough has been found, the search ends
    /// there.
    pub fn next_file(&mut self) -> (go: bool)
        ensures
            go == (!old(self)@.truncated && hits(old(self)@.lines) < old(self)@.max_results),
            final(self)@ == (GrepRunView { truncated: !go, ..old(self)@ }),
    {
        if self.truncated {
            return false;
        }
        let n: usize = self.count();
        if n as u64 >= self.max_results {
            self.truncated = true;
        }
        !self.truncated
    }

    /// Takes a match of a file; tells whether the search of it goes on. The caller sees
    /// the file's current line numbers, which the ledger notes.
    pub fn matched(
        &mut self,
        ledger: &mut Ledger,
        path: &str,
        abs_path: &str,
        line: u64,
        bytes: &[u8],
    ) -> (go: bool)
        ensures
            go == (hits(old(self)@.lines) < old(self)@.max_results),
            final(self)@ == after_match(old(self)@, path@, line, bytes@),
            final(ledger)@ == if go {
                LedgerView { shifts: old(ledger)@.shifts.remove(abs_path@), ..old(ledger)@ }
            } else {
                old(ledger)@
            },
    {
        let n: usize = self.count();
        if n as u64 >= self.max_results {
            self.truncated = true;
            return false;
        }
        record_grep(ledger, abs_path);
        let content: String = drop_breaks(lossy_text(bytes).as_str());
        let ghost before = self.lines@;
        self.lines.push(MatchLine { path: path.to_owned(), line, content, is_context: false });
        proof {
            assert(line_views(self.lines@) =~= line_views(before).push(
                self.lines@[before.len() as int]@,
            ));
        }
        true
    }

    /// Takes a line of context of a file; tells whether the search of it goes on.
    pub fn context(&mut self, path: &str, line: u64, bytes: &[u8]) -> (go: bool)
        ensures
            go == !old(self)@.truncated,
            final(self)@ == after_context(old(self)@, path@, line, bytes@),
    {
        if self.truncated {
            return false;
        }
        let content: String = drop_breaks(lossy_text(bytes).as_str());
        let ghost before = self.lines@;
        self.lines.push(MatchLine { path: path.to_owned(), line, content, is_context: true });
        proof {
            assert(line_views(self.lines@) =~= line_views(before).push(
                self.lines@[before.len() as int]@,
            ));
        }
        true
    }
}

/// A line as it is shown: with colons for a match, with dashes for context.
pub open spec fn line_text(l: LineView) -> Seq<char> {
    let sep = if l.is_context {
        "-"@
    } else {
        ":"@
    };
    l.path + sep + dec(l.line as nat) + sep + l.content + "\n"@
}

/// Lines as they are shown, in order.
pub open spec fn lines_text(lines: Seq<LineView>) -> Seq<char>
    decreases lines.len(),
{
    if lines.len() == 0 {
        Seq::empty()
    } else {
        lines_text(lines.drop_last()) + line_text(lines.last())
    }
}

/// The answer to a search.
pub open spec fn grep_text(r: GrepRunView) -> Seq<char> {
    let text = lines_text(r.lines) + (if r.truncated {
        "... truncated at "@ + dec(r.max_results as nat)
            + " matches (narrow the pattern, add glob filters, or set a higher max_results)\n"@
    } else {
        Seq::empty()
    });
    if text.len() == 0 {
        "(no matches)\n"@
    } else {
        text
    }
}

/// Writes the answer to a search.
pub fn render_grep(run: &GrepRun) -> (out: String)
    ensures
        out@ == grep_text(run@),
{
    let mut text: String = String::new();
    let mut i: usize = 0;
    proof {
        assert(run@.lines.take(0) =~= Seq::<LineView>::empty());
    }
    while i < run.lines.len()
        invariant
            i <= run.lines@.len(),
            text@ == lines_text(run@.lines.take(i as int)),
        decreases run.lines@.len() - i,
    {
        let l: &MatchLine = &run.lines[i];
        proof {
            let t = run@.lines.take(i + 1);
            assert(t.drop_last() =~= run@.lines.take(i as int));
            assert(t.last() == l@);
        }
        let sep: &str = if l.is_context {
            "-"
        } else {
            ":"
        };
        let ghost before = text@;
        text.append(l.path.as_str());
        text.append(sep);
        text.append(decimal(l.line).as_str());
        text.append(sep);
        text.append(l.content.as_str());
        text.append("\n");
        proof {
            assert(text@ =~= before + line_text(l@));
        }
        i = i + 1;
    }
    proof {
        assert(run@.lines.take(i as int) =~= run@.lines);
        assert(lines_text(run@.lines) + Seq::<char>::empty() =~= lines_text(run@.lines));
    }
    if run.truncated {
        let ghost before = text@;
        text.append("... truncated at ");
        text.append(decimal(run.max_results).as_str());
        text.append(
            " matches (narrow the pattern, add glob filters, or set a higher max_results)\n",
        );
        proof {
            assert(text@ =~= before + ("... truncated at "@ + dec(run.max_results as nat)
                + " matches (narrow the pattern, add glob filters, or set a higher max_results)\n"@));
        }
    }
    if text.as_str().is_empty() {
        "(no matches)\n".to_owned()
    } else {
        text
    }
}

/// A search never gives more matches than asked for, and one that is cut short gives
/// exactly that many.
pub proof fn results_are_capped(r: GrepRunView, path: Seq<char>, line: u64, bytes: Seq<u8>)
    requires
        hits(r.lines) <= r.max_results,
        r.truncated ==> hits(r.lines) == r.max_results,
    ensures
        hits(after_match(r, path, line, bytes).lines) <= r.max_results,
        after_match(r, path, line, bytes).truncated ==> hits(
            after_match(r, path, line, bytes).lines,
        ) == r.max_results,
        hits(after_context(r, path, line, bytes).lines) == hits(r.lines),
{
    let l = LineView { path, line, content: without_breaks(lossy(bytes)), is_context: false };
    assert(r.lines.push(l).drop_last() =~= r.lines);
    let c = LineView { is_context: true, ..l };
    assert(r.lines.push(c).drop_last() =~= r.lines);
}

/// A search that asks for a path outside the workspace is refused, whatever `..` the
/// path holds.
pub proof fn search_stays_in_the_workspace(
    path: Seq<crate::bounds::PartView>,
    workspace: Seq<crate::bounds::PartView>,
)
    requires
        crate::bounds::rooted(path),
        crate::bounds::plain(workspace),
        !workspace.is_prefix_of(crate::bounds::place(path)),
    ensures
        !within(path, workspace),
{
    if within(path, workspace) {
        crate::bounds::no_path_escapes_the_directory(path, workspace);
    }
}

} // verus!
