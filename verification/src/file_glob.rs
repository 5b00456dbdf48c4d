//! Listing files by a glob.

use vstd::prelude::*;

use crate::format::{dec, decimal};
use crate::grep_tool::{compiles, glob_fits, limit_from, limit_of, pattern_from, pattern_of};
use crate::json::{texts, Json};
use crate::lines::{join, join_parts, nl, views};
use crate::order::{in_order, sort_texts};
use crate::outside::{
    fits_matcher, glob_check, glob_error, glob_found, glob_is_match, system, System,
};
use crate::refusal::{plain_refusal, refuse, Refusal, RefusalView};
use crate::text::{chars_of, string_of};

verus! {

/// How many files are listed when no number is asked for.
pub const DEFAULT_MAX_RESULTS: u64 = 500;

/// How many files are listed at most.
pub const MAX_RESULTS_CAP: u64 = 10000;

/// A listing that can be run.
#[derive(Debug, PartialEq, Eq)]
pub struct GlobCall {
    pub pattern: String,
    pub max_results: u64,
}

/// The listing that a call asks for, or why there is none: a pattern is needed, and it
/// must compile.
pub open spec fn glob_plan(args: Json, backslash_separates: bool) -> Result<
    (Seq<char>, u64),
    RefusalView,
> {
    let pattern = pattern_of(args);
    if pattern.len() == 0 {
        Err(plain_refusal(""@, "glob: pattern is required (e.g. \"src/**/*.rs\")"@, None))
    } else if !fits_matcher(pattern, backslash_separates) {
        Err(plain_refusal(""@, "glob: invalid pattern: too long or too deeply nested"@, None))
    } else {
        match glob_error(pattern, backslash_separates) {
            Some(e) => Err(plain_refusal(""@, "glob: invalid pattern: "@ + e, None)),
            None => Ok((pattern, limit_of(args, DEFAULT_MAX_RESULTS, MAX_RESULTS_CAP))),
        }
    }
}

/// A listing by its parts.
pub open spec fn plan_parts(r: Result<GlobCall, Refusal>) -> Result<(Seq<char>, u64), RefusalView> {
    match r {
        Ok(c) => Ok((c.pattern@, c.max_results)),
        Err(e) => Err(e@),
    }
}

/// Reads a listing out of a call's arguments; a backslash in the pattern is read as the
/// system reads it.
pub fn plan_glob(args: &Json) -> (r: Result<GlobCall, Refusal>)
    ensures
        exists|backslash_separates: bool|
            plan_parts(r) == #[trigger] glob_plan(*args, backslash_separates),
{
    let on: System = system();
    let r: Result<GlobCall, Refusal> = plan_on(args, &on);
    proof {
        assert(plan_parts(r) == glob_plan(*args, on.separates()));
    }
    r
}

fn plan_on(args: &Json, on: &System) -> (r: Result<GlobCall, Refusal>)
    ensures
        plan_parts(r) == glob_plan(*args, on.separates()),
{
    let pattern: String = pattern_from(args);
    if pattern.as_str().is_empty() {
        return Err(
            refuse("", "glob: pattern is required (e.g. \"src/**/*.rs\")".to_owned(), None),
        );
    }
    if !glob_fits(pattern.as_str(), on.is_separating()) {
        return Err(
            refuse("", "glob: invalid pattern: too long or too deeply nested".to_owned(), None),
        );
    }
    match glob_check(pattern.as_str(), on) {
        Some(e) => {
            let mut message: String = "glob: invalid pattern: ".to_owned();
            message.append(e.as_str());
            Err(refuse("", message, None))
        },
        None => Ok(
            GlobCall {
                pattern,
                max_results: limit_from(args, DEFAULT_MAX_RESULTS, MAX_RESULTS_CAP),
            },
        ),
    }
}

/// Whether a glob that compiles matches a path.
pub open spec fn file_listed(pattern: Seq<char>, rel: Seq<char>, backslash_separates: bool) -> bool {
    compiles(pattern, backslash_separates) && glob_found(pattern, rel, backslash_separates)
}

/// The files of a walk that a glob matches, up to a number.
pub open spec fn listed(
    pattern: Seq<char>,
    max: int,
    files: Seq<Seq<char>>,
    backslash_separates: bool,
) -> Seq<Seq<char>>
    decreases files.len(),
{
    if files.len() == 0 {
        Seq::empty()
    } else {
        let before = listed(pattern, max, files.drop_last(), backslash_separates);
        if before.len() < max && file_listed(pattern, files.last(), backslash_separates) {
            before.push(files.last())
        } else {
            before
        }
    }
}

/// The state of a listing.
#[derive(Debug, PartialEq, Eq)]
pub struct GlobRun {
    pub matches: Vec<String>,
    pub truncated: bool,
}

/// The files of a listing after one more of the walk.
pub open spec fn after_offer(
    matches: Seq<Seq<char>>,
    pattern: Seq<char>,
    rel: Seq<char>,
    backslash_separates: bool,
) -> Seq<Seq<char>> {
    if file_listed(pattern, rel, backslash_separates) {
        matches.push(rel)
    } else {
        matches
    }
}

impl GlobRun {
    /// A listing of nothing yet.
    pub fn new() -> (r: Self)
        ensures
            texts(r.matches@) == Seq::<Seq<char>>::empty(),
            !r.truncated,
    {
        let r = GlobRun { matches: Vec::new(), truncated: false };
        proof {
            assert(texts(r.matches@) =~= Seq::<Seq<char>>::empty());
        }
        r
    }

    /// Takes a file of the walk, by its path relative to the root; tells whether the
    /// walk goes on. It ends once the number asked for is reached. A backslash is read as
    /// the system reads it.
    pub fn offer(&mut self, call: &GlobCall, rel: &str) -> (go: bool)
        ensures
            exists|backslash_separates: bool|
                texts(final(self).matches@) == #[trigger] after_offer(
                    texts(old(self).matches@),
                    call.pattern@,
                    rel@,
                    backslash_separates,
                ),
            final(self).truncated == (old(self).truncated || (final(self).matches@.len() > old(
                self,
            ).matches@.len() && final(self).matches@.len() >= call.max_results)),
            go == !final(self).truncated,
    {
        let on: System = system();
        let ghost before = texts(self.matches@);
        let go: bool = self.offer_on(call, rel, &on);
        proof {
            assert(texts(self.matches@) == after_offer(
                before,
                call.pattern@,
                rel@,
                on.separates(),
            ));
        }
        go
    }

    fn offer_on(&mut self, call: &GlobCall, rel: &str, on: &System) -> (go: bool)
        ensures
            texts(final(self).matches@) == after_offer(
                texts(old(self).matches@),
                call.pattern@,
                rel@,
                on.separates(),
            ),
            final(self).truncated == (old(self).truncated || (final(self).matches@.len() > old(
                self,
            ).matches@.len() && final(self).matches@.len() >= call.max_results)),
            go == !final(self).truncated,
    {
        let fits: bool = glob_fits(call.pattern.as_str(), on.is_separating());
        if fits && glob_is_match(call.pattern.as_str(), rel, on) {
            let ghost before = self.matches@;
            self.matches.push(rel.to_owned());
            proof {
                assert(texts(self.matches@) =~= texts(before).push(rel@));
            }
            if self.matches.len() as u64 >= call.max_results {
                self.truncated = true;
            }
        }
        !self.truncated
    }
}

/// The files that a walk offers, listed: those that match, up to the number asked for,
/// and whether it was reached.
pub fn list_files(call: &GlobCall, files: &[String]) -> (run: GlobRun)
    requires
        call.max_results > 0,
    ensures
        exists|backslash_separates: bool|
            texts(run.matches@) == #[trigger] listed(
                call.pattern@,
                call.max_results as int,
                texts(files@),
                backslash_separates,
            ),
        run.truncated == (run.matches@.len() == call.max_results),
{
    let on: System = system();
    let ghost sep = on.separates();
    let mut run: GlobRun = GlobRun::new();
    let ghost t = texts(files@);
    let mut i: usize = 0;
    proof {
        assert(t.take(0) =~= Seq::<Seq<char>>::empty());
    }
    while i < files.len()
        invariant
            i <= files@.len(),
            t == texts(files@),
            sep == on.separates(),
            call.max_results > 0,
            texts(run.matches@) == listed(
                call.pattern@,
                call.max_results as int,
                t.take(i as int),
                sep,
            ),
            run.matches@.len() < call.max_results,
            !run.truncated,
        decreases files@.len() - i,
    {
        let ghost before = texts(run.matches@);
        proof {
            assert(t.take(i + 1).drop_last() =~= t.take(i as int));
            assert(t.take(i + 1).last() == t[i as int]);
        }
        let go: bool = run.offer_on(call, files[i].as_str(), &on);
        proof {
            assert(texts(run.matches@).len() == run.matches@.len());
            assert(before.len() < call.max_results);
        }
        i = i + 1;
        if !go {
            proof {
                lemma_full_listing(call.pattern@, call.max_results as int, t, i as int, sep);
                assert(texts(run.matches@) == listed(
                    call.pattern@,
                    call.max_results as int,
                    t,
                    sep,
                ));
            }
            return run;
        }
    }
    proof {
        assert(t.take(i as int) =~= t);
        assert(texts(run.matches@) == listed(call.pattern@, call.max_results as int, t, sep));
    }
    run
}

proof fn lemma_full_listing(
    pattern: Seq<char>,
    max: int,
    files: Seq<Seq<char>>,
    i: int,
    backslash_separates: bool,
)
    requires
        0 <= i <= files.len(),
        listed(pattern, max, files.take(i), backslash_separates).len() >= max,
    ensures
        listed(pattern, max, files, backslash_separates) == listed(
            pattern,
            max,
            files.take(i),
            backslash_separates,
        ),
    decreases files.len(),
{
    if i == files.len() {
        assert(files.take(i) =~= files);
    } else {
        assert(files.drop_last().take(i) =~= files.take(i));
        lemma_full_listing(pattern, max, files.drop_last(), i, backslash_separates);
    }
}

/// The text of a listing whose files are in order.
pub open spec fn glob_text(matches: Seq<Seq<char>>, truncated: bool, max: u64) -> Seq<char> {
    let text = join(matches, nl()) + (if truncated {
        "\n... truncated at "@ + dec(max as nat) + " matches"@
    } else {
        Seq::empty()
    });
    if text.len() == 0 {
        "(no files match the pattern)"@
    } else {
        text
    }
}

/// Puts the files of a listing in order and writes the answer.
pub fn render_glob(run: GlobRun, max_results: u64) -> (r: (Vec<String>, String))
    ensures
        in_order(texts(r.0@)),
        texts(r.0@).to_multiset() == texts(run.matches@).to_multiset(),
        r.1@ == glob_text(texts(r.0@), run.truncated, max_results),
{
    let matches: Vec<String> = sort_texts(run.matches);
    let mut pieces: Vec<Vec<char>> = Vec::new();
    let mut i: usize = 0;
    while i < matches.len()
        invariant
            i <= matches@.len(),
            pieces@.len() == i,
            forall|j: int| 0 <= j < i ==> (#[trigger] pieces@[j])@ == matches@[j]@,
        decreases matches@.len() - i,
    {
        pieces.push(chars_of(matches[i].as_str()));
        i = i + 1;
    }
    proof {
        assert(views(pieces@) =~= texts(matches@));
    }
    let sep: Vec<char> = vec!['\n'];
    proof {
        assert(sep@ =~= nl());
    }
    let mut text: String = string_of(join_parts(pieces.as_slice(), sep.as_slice()).as_slice());
    proof {
        assert(text@ + Seq::<char>::empty() =~= text@);
    }
    if run.truncated {
        let ghost before = text@;
        text.append("\n... truncated at ");
        text.append(decimal(max_results).as_str());
        text.append(" matches");
        proof {
            assert(text@ =~= before + ("\n... truncated at "@ + dec(max_results as nat)
                + " matches"@));
        }
    }
    if text.as_str().is_empty() {
        (matches, "(no files match the pattern)".to_owned())
    } else {
        (matches, text)
    }
}

/// Every file that is listed matches the glob and was offered.
pub proof fn listed_files_match(
    pattern: Seq<char>,
    max: int,
    files: Seq<Seq<char>>,
    backslash_separates: bool,
    k: int,
)
    requires
        0 <= k < listed(pattern, max, files, backslash_separates).len(),
    ensures
        file_listed(
            pattern,
            listed(pattern, max, files, backslash_separates)[k],
            backslash_separates,
        ),
        files.contains(listed(pattern, max, files, backslash_separates)[k]),
    decreases files.len(),
{
    if files.len() > 0 {
        let f = files.drop_last();
        let before = listed(pattern, max, f, backslash_separates);
        let all = listed(pattern, max, files, backslash_separates);
        if k < before.len() {
            listed_files_match(pattern, max, f, backslash_separates, k);
            let j = choose|j: int| 0 <= j < f.len() && f[j] == before[k];
            assert(files[j] == before[k]);
            assert(all[k] == before[k]);
        } else {
            assert(files[files.len() - 1] == all[k]);
        }
    }
}

/// Unless the listing is cut short, no file that matches is left out.
pub proof fn no_match_is_left_out(
    pattern: Seq<char>,
    max: int,
    files: Seq<Seq<char>>,
    backslash_separates: bool,
    i: int,
)
    requires
        0 <= i < files.len(),
        file_listed(pattern, files[i], backslash_separates),
        listed(pattern, max, files, backslash_separates).len() < max,
    ensures
        listed(pattern, max, files, backslash_separates).contains(files[i]),
    decreases files.len(),
{
    let f = files.drop_last();
    let before = listed(pattern, max, f, backslash_separates);
    let all = listed(pattern, max, files, backslash_separates);
    if i == files.len() - 1 {
        assert(all[all.len() - 1] == files[i]);
    } else {
        no_match_is_left_out(pattern, max, f, backslash_separates, i);
        let k = choose|k: int| 0 <= k < before.len() && before[k] == f[i];
        assert(all[k] == files[i]);
    }
}

} // verus!
