//! One edit as a transaction: every hunk is located on the same text, and the
//! result is applied as a whole or not at all.

use vstd::prelude::*;

use crate::edit::apply::{
    apply_ops, check_overlap, clash, clash_means_overlap, edited_text, op_views,
    ordered, shift_at,
};
use crate::edit::candidate::{cand_views, Candidate, CandidateView};
use crate::edit::hunk::{kind_of, Hunk};
use crate::edit::locate::{loc_views, within, ErrorView, LocateError, Located, LocatedView};
use crate::edit::place::{
    all_within, hint_place, hunk_places, locate_hunk, locate_with_hint, locs_result,
};
use crate::edit::resolve::{compiles, resolve, resolved, OpView, ResolvedOp};
use crate::edit::view::FileView;
use crate::file_shared::{content_hash, diff_text, hash_of, unified_diff};
use crate::format::{dec, decimal_size};
use crate::json::{opt_text, texts};

verus! {

/// The most hunks that one call may carry.
pub const MAX_HUNKS: usize = 64;

/// What became of one hunk.
#[derive(Debug, PartialEq, Eq)]
pub struct HunkReport {
    pub index: usize,
    pub kind: String,
    pub status: String,
    pub tier: Option<u8>,
    pub score: Option<u64>,
    pub line_range: Option<(usize, usize)>,
    pub note: Option<String>,
    pub code: Option<String>,
    pub detail: Option<String>,
    pub candidates: Option<Vec<Candidate>>,
    pub used_hint: Option<usize>,
}

/// What a report says.
#[verifier::ext_equal]
pub struct ReportView {
    pub index: int,
    pub kind: Seq<char>,
    pub status: Seq<char>,
    pub tier: Option<int>,
    pub score: Option<nat>,
    pub line_range: Option<(int, int)>,
    pub note: Option<Seq<char>>,
    pub code: Option<Seq<char>>,
    pub detail: Option<Seq<char>>,
    pub candidates: Option<Seq<CandidateView>>,
    pub used_hint: Option<usize>,
}

impl View for HunkReport {
    type V = ReportView;

    open spec fn view(&self) -> ReportView {
        ReportView {
            index: self.index as int,
            kind: self.kind@,
            status: self.status@,
            tier: match self.tier {
                Some(t) => Some(t as int),
                None => None,
            },
            score: match self.score {
                Some(s) => Some(s as nat),
                None => None,
            },
            line_range: match self.line_range {
                Some(r) => Some((r.0 as int, r.1 as int)),
                None => None,
            },
            note: opt_text(self.note),
            code: opt_text(self.code),
            detail: opt_text(self.detail),
            candidates: match self.candidates {
                Some(c) => Some(cand_views(c@)),
                None => None,
            },
            used_hint: self.used_hint,
        }
    }
}

/// What a list of reports says.
pub open spec fn report_views(v: Seq<HunkReport>) -> Seq<ReportView> {
    Seq::new(v.len(), |i: int| v[i]@)
}

/// The result of an edit.
#[derive(Debug, PartialEq, Eq)]
pub struct FileOutcome {
    /// The new text, when anything is to be written.
    pub edited: Option<String>,
    pub new_hash: Option<String>,
    pub diff: String,
    pub reports: Vec<HunkReport>,
    pub code: Option<String>,
    pub message: Option<String>,
    pub notes: Vec<String>,
    /// For each operation, in the order of application, its 1-based line and by how
    /// many lines what follows moves.
    pub shifts: Vec<(usize, i128)>,
}

/// What an outcome says.
#[verifier::ext_equal]
pub struct OutcomeView {
    pub edited: Option<Seq<char>>,
    pub new_hash: Option<Seq<char>>,
    pub diff: Seq<char>,
    pub reports: Seq<ReportView>,
    pub code: Option<Seq<char>>,
    pub message: Option<Seq<char>>,
    pub notes: Seq<Seq<char>>,
    pub shifts: Seq<(int, int)>,
}

/// Line shifts as numbers.
pub open spec fn shift_views(v: Seq<(usize, i128)>) -> Seq<(int, int)> {
    Seq::new(v.len(), |i: int| (v[i].0 as int, v[i].1 as int))
}

impl View for FileOutcome {
    type V = OutcomeView;

    open spec fn view(&self) -> OutcomeView {
        OutcomeView {
            edited: opt_text(self.edited),
            new_hash: opt_text(self.new_hash),
            diff: self.diff@,
            reports: report_views(self.reports@),
            code: opt_text(self.code),
            message: opt_text(self.message),
            notes: texts(self.notes@),
            shifts: shift_views(self.shifts@),
        }
    }
}

/// Whether failed hunks hold back the others: a strict edit writes all or nothing,
/// a partial one writes what could be placed.
#[derive(Debug, Clone, Copy, PartialEq, Eq, Structural)]
pub enum Mode {
    Strict,
    Partial,
}

/// Where a hunk goes, with its line hint as the last resort against ambiguity.
pub open spec fn final_places(text: Seq<char>, h: Hunk) -> Result<Seq<LocatedView>, ErrorView> {
    match hunk_places(text, h) {
        Ok(v) => Ok(v),
        Err(ErrorView::Ambiguous { candidates, detail }) => match hint_place(text, h) {
            Some(Ok(l)) => Ok(seq![l]),
            Some(Err(e)) => Err(e),
            None => Err(ErrorView::Ambiguous { candidates, detail }),
        },
        Err(e) => Err(e),
    }
}

/// The code of a locating error.
pub open spec fn error_code(e: ErrorView) -> Seq<char> {
    match e {
        ErrorView::NoMatch { .. } => "NO_MATCH"@,
        ErrorView::Ambiguous { .. } => "AMBIGUOUS_MATCH"@,
        ErrorView::Underspecified => "UNDERSPECIFIED"@,
        ErrorView::InvalidRegex(_) => "INVALID_REGEX"@,
    }
}

/// The explanation of a locating error.
pub open spec fn error_detail(e: ErrorView) -> Seq<char> {
    match e {
        ErrorView::NoMatch { detail, .. } => detail,
        ErrorView::Ambiguous { detail, .. } => detail,
        ErrorView::Underspecified =>
            "old/anchor and contexts are all empty; use insert_after / insert_before / prepend_file / append_file instead"@,
        ErrorView::InvalidRegex(e) => "replace_inline: invalid regex: "@ + e,
    }
}

/// The candidates of a locating error.
pub open spec fn error_candidates(e: ErrorView) -> Option<Seq<CandidateView>> {
    match e {
        ErrorView::NoMatch { candidates, .. } => Some(candidates),
        ErrorView::Ambiguous { candidates, .. } => Some(candidates),
        _ => None,
    }
}

/// The report on hunk `i`.
pub open spec fn report_on(i: int, h: Hunk, places: Result<Seq<LocatedView>, ErrorView>) -> ReportView {
    match places {
        Ok(locs) => {
            let l = locs[0];
            ReportView {
                index: i,
                kind: kind_of(h),
                status: "ok"@,
                tier: Some(l.tier),
                score: Some(l.score),
                line_range: if l.win_lines > 0 {
                    Some((l.start_line + 1, l.start_line + l.win_lines))
                } else {
                    None
                },
                note: Some(
                    if locs.len() > 1 {
                        dec(locs.len()) + " location(s) replaced"@
                    } else {
                        l.note
                    },
                ),
                code: None,
                detail: None,
                candidates: None,
                used_hint: l.hint_line,
            }
        },
        Err(e) => ReportView {
            index: i,
            kind: kind_of(h),
            status: "error"@,
            tier: None,
            score: None,
            line_range: None,
            note: None,
            code: Some(error_code(e)),
            detail: Some(error_detail(e)),
            candidates: error_candidates(e),
            used_hint: None,
        },
    }
}

/// The reports on all hunks.
pub open spec fn all_reports(text: Seq<char>, hunks: Seq<Hunk>) -> Seq<ReportView> {
    Seq::new(hunks.len(), |i: int| report_on(i, hunks[i], final_places(text, hunks[i])))
}

/// The code of the first hunk below `n` that could not be placed.
pub open spec fn first_failure(text: Seq<char>, hunks: Seq<Hunk>, n: int) -> Option<Seq<char>>
    decreases n,
{
    if n <= 0 {
        None
    } else {
        match first_failure(text, hunks, n - 1) {
            Some(c) => Some(c),
            None => match final_places(text, hunks[n - 1]) {
                Ok(_) => None,
                Err(e) => Some(error_code(e)),
            },
        }
    }
}

/// How many hunks below `n` could not be placed.
pub open spec fn failures(text: Seq<char>, hunks: Seq<Hunk>, n: int) -> nat
    decreases n,
{
    if n <= 0 {
        0
    } else {
        failures(text, hunks, n - 1) + (if final_places(text, hunks[n - 1]) is Err {
            1nat
        } else {
            0
        })
    }
}

/// The operations of one hunk at the first `k` of its places.
pub open spec fn ops_of(text: Seq<char>, i: int, h: Hunk, locs: Seq<LocatedView>) -> Seq<
    (int, OpView),
> {
    Seq::new(locs.len(), |k: int| (i, resolved(text, h, locs[k])))
}

/// The operations of the hunks below `n` that could be placed, each with the
/// number of its hunk.
pub open spec fn all_ops(text: Seq<char>, hunks: Seq<Hunk>, n: int) -> Seq<(int, OpView)>
    decreases n,
{
    if n <= 0 {
        Seq::<(int, OpView)>::empty()
    } else {
        match final_places(text, hunks[n - 1]) {
            Ok(locs) => all_ops(text, hunks, n - 1) + ops_of(text, n - 1, hunks[n - 1], locs),
            Err(_) => all_ops(text, hunks, n - 1),
        }
    }
}

/// The operations without their numbers.
pub open spec fn bare(ops: Seq<(int, OpView)>) -> Seq<OpView> {
    Seq::new(ops.len(), |i: int| ops[i].1)
}

/// An outcome that writes nothing.
pub open spec fn rejected(
    reports: Seq<ReportView>,
    code: Seq<char>,
    message: Seq<char>,
    notes: Seq<Seq<char>>,
) -> OutcomeView {
    OutcomeView {
        edited: None,
        new_hash: None,
        diff: Seq::<char>::empty(),
        reports,
        code: Some(code),
        message: Some(message),
        notes,
        shifts: Seq::<(int, int)>::empty(),
    }
}

/// An outcome that writes the text with operations applied.
pub open spec fn written(
    text: Seq<char>,
    ops: Seq<OpView>,
    reports: Seq<ReportView>,
    code: Option<Seq<char>>,
    message: Option<Seq<char>>,
    notes: Seq<Seq<char>>,
) -> OutcomeView {
    let edited = edited_text(text, ops);
    OutcomeView {
        edited: Some(edited),
        new_hash: Some(hash_of(edited)),
        diff: diff_text(text, edited, "file"@),
        reports,
        code,
        message,
        notes,
        shifts: Seq::new(ops.len(), |k: int| shift_at(text, ordered(ops), k)),
    }
}

/// How many hunks below `n` replace the whole file.
pub open spec fn overwrites(hunks: Seq<Hunk>, n: int) -> nat
    decreases n,
{
    if n <= 0 {
        0
    } else {
        overwrites(hunks, n - 1) + (if hunks[n - 1] is Overwrite {
            1nat
        } else {
            0
        })
    }
}

/// The outcome of an edit.
pub open spec fn edit_outcome(
    text: Seq<char>,
    hunks: Seq<Hunk>,
    notes: Seq<Seq<char>>,
    mode: Mode,
) -> OutcomeView {
    let n = hunks.len() as int;
    let reports = all_reports(text, hunks);
    let failed = failures(text, hunks, n);
    let numbered = all_ops(text, hunks, n);
    let ops = bare(numbered);
    if overwrites(hunks, n) > 0 && n > 1 {
        rejected(
            Seq::<ReportView>::empty(),
            "OVERWRITE_EXCLUSIVE"@,
            "overwrite replaces the WHOLE file and must be the only hunk in the call; use one overwrite alone, or prepend_file/append_file/replace hunks for incremental edits"@,
            notes,
        )
    } else {
        match first_failure(text, hunks, n) {
            Some(code) => {
                if mode == Mode::Strict {
                    rejected(
                        reports,
                        code,
                        dec(failed) + " of "@ + dec(n as nat)
                            + " hunk(s) failed to locate; all-or-nothing: no changes written"@,
                        notes,
                    )
                } else if ops.len() == 0 {
                    rejected(
                        reports,
                        code,
                        dec(failed) + "/"@ + dec(failed) + " hunk(s) failed; nothing applied"@,
                        notes,
                    )
                } else {
                    match clash(ops, 0) {
                        Some(p) => rejected(
                            reports,
                            "OVERLAPPING_HUNKS"@,
                            "successful hunk "@ + dec(numbered[p.0].0 as nat) + " and hunk "@ + dec(
                                numbered[p.1].0 as nat,
                            ) + " resolve to overlapping ranges; no changes written"@,
                            notes,
                        ),
                        None => written(
                            text,
                            ops,
                            reports,
                            Some(code),
                            Some(
                                dec(ops.len()) + " hunk(s) applied, "@ + dec(failed)
                                    + " failed — re-send ONLY the failed hunks with the returned new_hash as expected_hash"@,
                            ),
                            notes,
                        ),
                    }
                }
            },
            None => match clash(ops, 0) {
                Some(p) => rejected(
                    reports,
                    "OVERLAPPING_HUNKS"@,
                    "hunk "@ + dec(numbered[p.0].0 as nat) + " and hunk "@ + dec(
                        numbered[p.1].0 as nat,
                    ) + " resolve to overlapping ranges; no changes written"@,
                    notes,
                ),
                None => written(text, ops, reports, None, None, notes),
            },
        }
    }
}

proof fn lemma_placed_compiles(text: Seq<char>, h: Hunk)
    requires
        final_places(text, h) is Ok,
    ensures
        compiles(h),
{
}

/// Locates a hunk, with its line hint as the last resort against ambiguity.
pub fn locate_final(view: &FileView, hunk: &Hunk) -> (r: Result<Vec<Located>, LocateError>)
    requires
        view.wf(),
    ensures
        locs_result(r) == final_places(view.content@, *hunk),
        r matches Ok(v) ==> all_within(view.content@, loc_views(v@)) && v@.len() > 0,
{
    match locate_hunk(view, hunk) {
        Ok(v) => Ok(v),
        Err(LocateError::Ambiguous { candidates, detail }) => {
            match locate_with_hint(view, hunk) {
                Some(Ok(l)) => {
                    let mut v: Vec<Located> = Vec::new();
                    v.push(l);
                    proof {
                        assert(loc_views(v@) =~= seq![l@]);
                    }
                    Ok(v)
                },
                Some(Err(e)) => Err(e),
                None => Err(LocateError::Ambiguous { candidates, detail }),
            }
        },
        Err(e) => Err(e),
    }
}

fn ok_report(index: usize, hunk: &Hunk, locs: &[Located], Ghost(text): Ghost<Seq<char>>) -> (r:
    HunkReport)
    requires
        locs@.len() > 0,
        all_within(text, loc_views(locs@)),
        crate::lines::split_nl(text).len() <= usize::MAX,
    ensures
        r@ == report_on(index as int, *hunk, Ok(loc_views(locs@))),
{
    let l: &Located = &locs[0];
    proof {
        assert(loc_views(locs@)[0] == l@);
        assert(within(text, loc_views(locs@)[0]));
    }
    let line_range: Option<(usize, usize)> = if l.win_lines > 0 {
        Some((l.start_line + 1, l.start_line + l.win_lines))
    } else {
        None
    };
    let note: String = if locs.len() > 1 {
        let mut t: String = decimal_size(locs.len());
        t.append(" location(s) replaced");
        t
    } else {
        l.note.clone()
    };
    HunkReport {
        index,
        kind: hunk.kind_name().to_owned(),
        status: "ok".to_owned(),
        tier: Some(l.tier),
        score: Some(l.score),
        line_range,
        note: Some(note),
        code: None,
        detail: None,
        candidates: None,
        used_hint: l.hint_line,
    }
}

fn code_of(e: &LocateError) -> (r: &'static str)
    ensures
        r@ == error_code(e@),
{
    match e {
        LocateError::NoMatch { .. } => "NO_MATCH",
        LocateError::Ambiguous { .. } => "AMBIGUOUS_MATCH",
        LocateError::Underspecified => "UNDERSPECIFIED",
        LocateError::InvalidRegex(_) => "INVALID_REGEX",
    }
}

fn error_report(index: usize, hunk: &Hunk, e: LocateError) -> (r: HunkReport)
    ensures
        r@ == report_on(index as int, *hunk, Err(e@)),
{
    let code: String = code_of(&e).to_owned();
    let (detail, candidates): (String, Option<Vec<Candidate>>) = match e {
        LocateError::NoMatch { candidates, detail } => (detail, Some(candidates)),
        LocateError::Ambiguous { candidates, detail } => (detail, Some(candidates)),
        LocateError::Underspecified => (
            "old/anchor and contexts are all empty; use insert_after / insert_before / prepend_file / append_file instead".to_owned(),
            None,
        ),
        LocateError::InvalidRegex(err) => {
            let mut t: String = "replace_inline: invalid regex: ".to_owned();
            t.append(err.as_str());
            (t, None)
        },
    };
    HunkReport {
        index,
        kind: hunk.kind_name().to_owned(),
        status: "error".to_owned(),
        tier: None,
        score: None,
        line_range: None,
        note: None,
        code: Some(code),
        detail: Some(detail),
        candidates,
        used_hint: None,
    }
}

/// Operations with their hunk numbers.
pub open spec fn num_views(v: Seq<(usize, ResolvedOp)>) -> Seq<(int, OpView)> {
    Seq::new(v.len(), |i: int| (v[i].0 as int, v[i].1@))
}

proof fn lemma_bare_views(v: Seq<(usize, ResolvedOp)>)
    ensures
        bare(num_views(v)) == op_views(v),
{
    assert(bare(num_views(v)) =~= op_views(v));
}

/// Adds the operations of one hunk at its places.
fn push_ops(
    ops: &mut Vec<(usize, ResolvedOp)>,
    view: &FileView,
    index: usize,
    hunk: &Hunk,
    locs: &[Located],
)
    requires
        view.wf(),
        all_within(view.content@, loc_views(locs@)),
        compiles(*hunk),
        forall|i: int|
            0 <= i < old(ops)@.len() ==> (#[trigger] old(ops)@[i]).1@.fits(
                view.content@.len() as int,
            ),
    ensures
        num_views(final(ops)@) == num_views(old(ops)@) + ops_of(
            view.content@,
            index as int,
            *hunk,
            loc_views(locs@),
        ),
        forall|i: int|
            0 <= i < final(ops)@.len() ==> (#[trigger] final(ops)@[i]).1@.fits(
                view.content@.len() as int,
            ),
{
    let ghost before = num_views(ops@);
    let ghost more = ops_of(view.content@, index as int, *hunk, loc_views(locs@));
    let mut k: usize = 0;
    proof {
        assert(more.take(0) =~= Seq::<(int, OpView)>::empty());
        assert(before + more.take(0) =~= before);
    }
    while k < locs.len()
        invariant
            view.wf(),
            all_within(view.content@, loc_views(locs@)),
            compiles(*hunk),
            k <= locs@.len(),
            more == ops_of(view.content@, index as int, *hunk, loc_views(locs@)),
            num_views(ops@) == before + more.take(k as int),
            forall|i: int|
                0 <= i < ops@.len() ==> (#[trigger] ops@[i]).1@.fits(view.content@.len() as int),
        decreases locs@.len() - k,
    {
        proof {
            assert(loc_views(locs@)[k as int] == locs@[k as int]@);
            assert(within(view.content@, loc_views(locs@)[k as int]));
        }
        let ghost now = num_views(ops@);
        let op: ResolvedOp = resolve(view, hunk, &locs[k]);
        ops.push((index, op));
        k = k + 1;
        proof {
            assert(num_views(ops@) =~= now.push((index as int, op@)));
            assert(more.take(k as int) =~= more.take(k - 1).push(more[k - 1]));
            assert(num_views(ops@) =~= before + more.take(k as int));
        }
    }
    proof {
        assert(more.take(more.len() as int) =~= more);
    }
}

fn reject(reports: Vec<HunkReport>, code: String, message: String, notes: Vec<String>) -> (r:
    FileOutcome)
    ensures
        r@ == rejected(report_views(reports@), code@, message@, texts(notes@)),
{
    let r: FileOutcome = FileOutcome {
        edited: None,
        new_hash: None,
        diff: String::new(),
        reports,
        code: Some(code),
        message: Some(message),
        notes,
        shifts: Vec::new(),
    };
    proof {
        assert(r@ =~= rejected(report_views(reports@), code@, message@, texts(notes@)));
    }
    r
}

fn write_out(
    content: &str,
    ops: &[(usize, ResolvedOp)],
    reports: Vec<HunkReport>,
    code: Option<String>,
    message: Option<String>,
    notes: Vec<String>,
) -> (r: FileOutcome)
    requires
        clash(op_views(ops@), 0) is None,
        forall|i: int| 0 <= i < ops@.len() ==> (#[trigger] ops@[i]).1@.fits(content@.len() as int),
    ensures
        r@ == written(
            content@,
            op_views(ops@),
            report_views(reports@),
            opt_text(code),
            opt_text(message),
            texts(notes@),
        ),
{
    let (edited, shifts): (String, Vec<(usize, i128)>) = apply_ops(content, ops);
    let r: FileOutcome = FileOutcome {
        diff: unified_diff(content, edited.as_str(), "file"),
        new_hash: Some(content_hash(edited.as_str())),
        edited: Some(edited),
        reports,
        code,
        message,
        notes,
        shifts,
    };
    proof {
        assert(r@ =~= written(
            content@,
            op_views(ops@),
            report_views(reports@),
            opt_text(code),
            opt_text(message),
            texts(notes@),
        ));
    }
    r
}

fn overlap_message(front: &str, a: usize, b: usize) -> (out: String)
    ensures
        out@ == front@ + dec(a as nat) + " and hunk "@ + dec(b as nat)
            + " resolve to overlapping ranges; no changes written"@,
{
    let mut out: String = front.to_owned();
    out.append(decimal_size(a).as_str());
    out.append(" and hunk ");
    out.append(decimal_size(b).as_str());
    out.append(" resolve to overlapping ranges; no changes written");
    out
}

fn count_overwrites(hunks: &[Hunk]) -> (n: usize)
    ensures
        n == overwrites(hunks@, hunks@.len() as int),
{
    let mut n: usize = 0;
    let mut i: usize = 0;
    while i < hunks.len()
        invariant
            i <= hunks@.len(),
            n == overwrites(hunks@, i as int),
            n <= i,
        decreases hunks@.len() - i,
    {
        match &hunks[i] {
            Hunk::Overwrite { .. } => {
                n = n + 1;
            },
            _ => {},
        }
        i = i + 1;
    }
    n
}

/// Runs an edit on a text: locates every hunk on that text, refuses what overlaps,
/// and applies the rest. Any failed hunk makes a strict edit write nothing; a
/// partial edit writes what could be placed.
pub fn run_edit(content: &str, hunks: &[Hunk], notes: Vec<String>, mode: Mode) -> (r: FileOutcome)
    ensures
        r@ == edit_outcome(content@, hunks@, texts(notes@), mode),
{
    let total: usize = hunks.len();
    if count_overwrites(hunks) > 0 && total > 1 {
        let none: Vec<HunkReport> = Vec::new();
        proof {
            assert(report_views(none@) =~= Seq::<ReportView>::empty());
        }
        return reject(
            none,
            "OVERWRITE_EXCLUSIVE".to_owned(),
            "overwrite replaces the WHOLE file and must be the only hunk in the call; use one overwrite alone, or prepend_file/append_file/replace hunks for incremental edits".to_owned(),
            notes,
        );
    }
    let view: FileView = FileView::new(content);
    let lines: usize = view.lines.len();
    let ghost text = content@;
    let ghost spec_reports = all_reports(text, hunks@);
    let mut reports: Vec<HunkReport> = Vec::new();
    let mut ops: Vec<(usize, ResolvedOp)> = Vec::new();
    let mut first_code: Option<String> = None;
    let mut failed: usize = 0;
    let mut i: usize = 0;
    proof {
        assert(num_views(ops@) =~= Seq::<(int, OpView)>::empty());
    }
    while i < total
        invariant
            i <= total == hunks@.len(),
            view.wf(),
            view.content@ == text,
            lines == crate::lines::split_nl(text).len(),
            spec_reports == all_reports(text, hunks@),
            reports@.len() == i,
            forall|k: int| 0 <= k < i ==> #[trigger] reports@[k]@ == spec_reports[k],
            opt_text(first_code) == first_failure(text, hunks@, i as int),
            failed == failures(text, hunks@, i as int),
            failed <= i,
            num_views(ops@) == all_ops(text, hunks@, i as int),
            forall|k: int|
                0 <= k < ops@.len() ==> (#[trigger] ops@[k]).1@.fits(text.len() as int),
        decreases total - i,
    {
        let hunk: &Hunk = &hunks[i];
        match locate_final(&view, hunk) {
            Ok(locs) => {
                proof {
                    lemma_placed_compiles(text, *hunk);
                }
                let report: HunkReport = ok_report(i, hunk, locs.as_slice(), Ghost(text));
                reports.push(report);
                push_ops(&mut ops, &view, i, hunk, locs.as_slice());
            },
            Err(e) => {
                failed = failed + 1;
                if first_code.is_none() {
                    first_code = Some(code_of(&e).to_owned());
                }
                let report: HunkReport = error_report(i, hunk, e);
                reports.push(report);
            },
        }
        i = i + 1;
    }
    proof {
        assert(report_views(reports@) =~= spec_reports);
        lemma_bare_views(ops@);
        clash_means_overlap(op_views(ops@));
        assert forall|k: int| 0 <= k < ops@.len() implies num_views(ops@)[k].0 == #[trigger] ops@[k].0 by {}
    }
    match first_code {
        Some(code) => match mode {
            Mode::Strict => {
                let mut message: String = decimal_size(failed);
                message.append(" of ");
                message.append(decimal_size(total).as_str());
                message.append(" hunk(s) failed to locate; all-or-nothing: no changes written");
                reject(reports, code, message, notes)
            },
            Mode::Partial => {
                if ops.len() == 0 {
                    let mut message: String = decimal_size(failed);
                    message.append("/");
                    message.append(decimal_size(failed).as_str());
                    message.append(" hunk(s) failed; nothing applied");
                    return reject(reports, code, message, notes);
                }
                match check_overlap(ops.as_slice()) {
                    Err((a, b)) => reject(
                        reports,
                        "OVERLAPPING_HUNKS".to_owned(),
                        overlap_message("successful hunk ", a, b),
                        notes,
                    ),
                    Ok(_) => {
                        let mut message: String = decimal_size(ops.len());
                        message.append(" hunk(s) applied, ");
                        message.append(decimal_size(failed).as_str());
                        message.append(
                            " failed — re-send ONLY the failed hunks with the returned new_hash as expected_hash",
                        );
                        write_out(
                            content,
                            ops.as_slice(),
                            reports,
                            Some(code),
                            Some(message),
                            notes,
                        )
                    },
                }
            },
        },
        None => match check_overlap(ops.as_slice()) {
            Err((a, b)) => reject(
                reports,
                "OVERLAPPING_HUNKS".to_owned(),
                overlap_message("hunk ", a, b),
                notes,
            ),
            Ok(_) => write_out(content, ops.as_slice(), reports, None, None, notes),
        },
    }
}

} // verus!
