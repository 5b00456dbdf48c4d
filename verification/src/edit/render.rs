//! Edit outcomes as text.

use vstd::prelude::*;

use crate::edit::candidate::{cand_views, Candidate, CandidateView};
use crate::edit::score::{fixed2, render_score};
use crate::edit::transaction::{report_views, FileOutcome, HunkReport, OutcomeView, ReportView};
use crate::file_shared::CONTENT_CAP;
use crate::format::{byte_len, byte_length, chars_fitting, dec, decimal, decimal_big, decimal_size, fitting};
use crate::json::{opt_text, text_eq, texts};
use crate::text::{chars_of, slice_of, string_of};

verus! {

/// The text of an optional text, empty when absent.
pub open spec fn or_empty(s: Option<Seq<char>>) -> Seq<char> {
    match s {
        Some(t) => t,
        None => ""@,
    }
}

/// A line range as text.
pub open spec fn range_text(r: Option<(int, int)>) -> Seq<char> {
    match r {
        Some(p) => if p.0 == p.1 {
            "L"@ + dec(p.0 as nat)
        } else {
            "L"@ + dec(p.0 as nat) + "-L"@ + dec(p.1 as nat)
        },
        None => "file"@,
    }
}

/// The line for a hunk that was placed.
pub open spec fn ok_line(r: ReportView) -> Seq<char> {
    "hunk"@ + dec(r.index as nat) + " "@ + r.kind + ": "@ + range_text(r.line_range) + " "@ + (
    match r.tier {
        Some(t) => "tier"@ + dec(t as nat),
        None => ""@,
    }) + (if r.tier == Some(3int) && r.score is Some {
        " score "@ + fixed2(r.score->0)
    } else {
        ""@
    }) + " "@ + or_empty(r.note)
}

fn opt_str<'a>(s: &'a Option<String>) -> (r: &'a str)
    ensures
        r@ == or_empty(opt_text(*s)),
{
    match s {
        Some(t) => t.as_str(),
        None => "",
    }
}

/// Writes the line for a hunk that was placed.
pub fn hunk_ok_line(r: &HunkReport) -> (out: String)
    ensures
        out@ == ok_line(r@),
{
    let mut out: String = "hunk".to_owned();
    out.append(decimal_size(r.index).as_str());
    out.append(" ");
    out.append(r.kind.as_str());
    out.append(": ");
    let loc: String = match r.line_range {
        Some(p) => {
            let mut t: String = "L".to_owned();
            t.append(decimal_size(p.0).as_str());
            if p.0 != p.1 {
                t.append("-L");
                t.append(decimal_size(p.1).as_str());
            }
            t
        },
        None => "file".to_owned(),
    };
    out.append(loc.as_str());
    out.append(" ");
    let tier: String = match r.tier {
        Some(t) => {
            let mut x: String = "tier".to_owned();
            x.append(decimal(t as u64).as_str());
            x
        },
        None => "".to_owned(),
    };
    out.append(tier.as_str());
    let third: bool = match r.tier {
        Some(t) => t == 3,
        None => false,
    };
    let score: String = match r.score {
        Some(s) => if third {
            let mut x: String = " score ".to_owned();
            x.append(render_score(s).as_str());
            x
        } else {
            "".to_owned()
        },
        None => "".to_owned(),
    };
    out.append(score.as_str());
    out.append(" ");
    out.append(opt_str(&r.note));
    out
}

/// The lines for candidate `i`.
pub open spec fn candidate_lines(i: int, c: CandidateView) -> Seq<char> {
    "    candidate #"@ + dec((i + 1) as nat) + " L"@ + dec(c.first as nat) + "-L"@ + dec(
        c.last as nat,
    ) + " score "@ + fixed2(c.score) + " tier"@ + dec(c.tier as nat) + "\n"@ + (if c.diff.len()
        > 0 {
        c.diff + "\n"@
    } else {
        ""@
    })
}

/// The lines for the first `n` candidates.
pub open spec fn candidates_lines(cands: Seq<CandidateView>, n: int) -> Seq<char>
    decreases n,
{
    if n <= 0 {
        Seq::<char>::empty()
    } else {
        candidates_lines(cands, n - 1) + candidate_lines(n - 1, cands[n - 1])
    }
}

/// The lines for a hunk that could not be placed.
pub open spec fn error_lines(r: ReportView) -> Seq<char> {
    "  hunk"@ + dec(r.index as nat) + " "@ + r.kind + ": "@ + (match r.code {
        Some(c) => c,
        None => "error"@,
    }) + " — "@ + or_empty(r.detail) + "\n"@ + (match r.candidates {
        Some(c) => candidates_lines(c, c.len() as int),
        None => Seq::<char>::empty(),
    })
}

fn candidate_text(i: usize, c: &Candidate) -> (out: String)
    requires
        i < usize::MAX,
    ensures
        out@ == candidate_lines(i as int, c@),
{
    let mut out: String = "    candidate #".to_owned();
    out.append(decimal_size(i + 1).as_str());
    out.append(" L");
    out.append(decimal_size(c.line_range.0).as_str());
    out.append("-L");
    out.append(decimal_size(c.line_range.1).as_str());
    out.append(" score ");
    out.append(render_score(c.score).as_str());
    out.append(" tier");
    out.append(decimal(c.tier as u64).as_str());
    out.append("\n");
    if !c.diff.as_str().is_empty() {
        let ghost before = out@;
        out.append(c.diff.as_str());
        out.append("\n");
        proof {
            assert(out@ =~= before + (c.diff@ + "\n"@));
        }
    } else {
        proof {
            reveal_strlit("");
            assert(out@ =~= out@ + ""@);
        }
    }
    out
}

/// Appends the lines for some candidates.
pub fn render_candidates(out: &mut String, cands: &[Candidate])
    ensures
        final(out)@ == old(out)@ + candidates_lines(cand_views(cands@), cands@.len() as int),
{
    let ghost first = out@;
    let ghost v = cand_views(cands@);
    let mut i: usize = 0;
    proof {
        assert(first + candidates_lines(v, 0) =~= first);
    }
    while i < cands.len()
        invariant
            i <= cands@.len(),
            v == cand_views(cands@),
            out@ == first + candidates_lines(v, i as int),
        decreases cands@.len() - i,
    {
        proof {
            assert(v[i as int] == cands@[i as int]@);
        }
        out.append(candidate_text(i, &cands[i]).as_str());
        i = i + 1;
        proof {
            assert(out@ =~= first + candidates_lines(v, i as int));
        }
    }
}

/// Appends the lines for a hunk that could not be placed.
pub fn render_hunk_error(out: &mut String, r: &HunkReport)
    ensures
        final(out)@ == old(out)@ + error_lines(r@),
{
    let mut head: String = "  hunk".to_owned();
    head.append(decimal_size(r.index).as_str());
    head.append(" ");
    head.append(r.kind.as_str());
    head.append(": ");
    let code: &str = match &r.code {
        Some(c) => c.as_str(),
        None => "error",
    };
    head.append(code);
    head.append(" — ");
    head.append(opt_str(&r.detail));
    head.append("\n");
    let ghost first = head@;
    match &r.candidates {
        Some(cands) => {
            render_candidates(&mut head, cands.as_slice());
        },
        None => {
            proof {
                assert(first =~= first + Seq::<char>::empty());
            }
        },
    }
    out.append(head.as_str());
}

/// The lines for the hunks below `n` that were placed.
pub open spec fn placed_lines(reports: Seq<ReportView>, n: int) -> Seq<char>
    decreases n,
{
    if n <= 0 {
        Seq::<char>::empty()
    } else if reports[n - 1].status == "ok"@ {
        placed_lines(reports, n - 1) + ("  "@ + ok_line(reports[n - 1]) + "\n"@)
    } else {
        placed_lines(reports, n - 1)
    }
}

/// The lines for all hunks below `n`, as if every one was placed.
pub open spec fn every_line(reports: Seq<ReportView>, n: int) -> Seq<char>
    decreases n,
{
    if n <= 0 {
        Seq::<char>::empty()
    } else {
        every_line(reports, n - 1) + ("  "@ + ok_line(reports[n - 1]) + "\n"@)
    }
}

/// The lines for the hunks below `n` that could not be placed.
pub open spec fn failed_lines(reports: Seq<ReportView>, n: int) -> Seq<char>
    decreases n,
{
    if n <= 0 {
        Seq::<char>::empty()
    } else if reports[n - 1].status == "ok"@ {
        failed_lines(reports, n - 1)
    } else {
        failed_lines(reports, n - 1) + error_lines(reports[n - 1])
    }
}

/// The lines for the hunks below `n` of an edit that wrote nothing.
pub open spec fn refused_lines(reports: Seq<ReportView>, n: int) -> Seq<char>
    decreases n,
{
    if n <= 0 {
        Seq::<char>::empty()
    } else {
        let r = reports[n - 1];
        refused_lines(reports, n - 1) + (if r.status == "ok"@ {
            "  hunk"@ + dec(r.index as nat) + " "@ + r.kind + ": ok (not applied — all-or-nothing)\n"@
        } else {
            error_lines(r)
        })
    }
}

/// How many of the first `n` hunks were placed.
pub open spec fn placed_count(reports: Seq<ReportView>, n: int) -> nat
    decreases n,
{
    if n <= 0 {
        0
    } else {
        placed_count(reports, n - 1) + (if reports[n - 1].status == "ok"@ {
            1nat
        } else {
            0
        })
    }
}

/// The lines for the first `n` notes.
pub open spec fn note_lines(notes: Seq<Seq<char>>, n: int) -> Seq<char>
    decreases n,
{
    if n <= 0 {
        Seq::<char>::empty()
    } else {
        note_lines(notes, n - 1) + ("  note: "@ + notes[n - 1] + "\n"@)
    }
}

/// The first eight characters of a fingerprint.
pub open spec fn hash8(h: Option<Seq<char>>) -> Seq<char> {
    let t = or_empty(h);
    if t.len() <= 8 {
        t
    } else {
        t.take(8)
    }
}

/// The report of an edit, without its notes.
pub open spec fn outcome_body(path: Seq<char>, o: OutcomeView) -> Seq<char> {
    let n = o.reports.len() as int;
    match (o.edited, o.code) {
        (Some(_), None) => "[OK] edit "@ + path + "\n  "@ + dec(n as nat) + "/"@ + dec(n as nat)
            + " hunks applied (new_hash "@ + hash8(o.new_hash) + ")\n"@ + every_line(o.reports, n),
        (Some(_), Some(_)) => "[PARTIAL] edit "@ + path + "\n  applied "@ + dec(
            placed_count(o.reports, n),
        ) + "/"@ + dec(n as nat) + " hunks (new_hash "@ + hash8(o.new_hash) + ")\n"@
            + placed_lines(o.reports, n) + failed_lines(o.reports, n)
            + "  next: re-send ONLY the failed hunks with \"expected_hash\": \""@ + or_empty(
            o.new_hash,
        ) + "\" — already-applied hunks will conflict if repeated\n"@,
        (None, Some(code)) => "[ERROR] edit "@ + path + "\n  no changes written ("@ + code + ")\n"@
            + (match o.message {
            Some(m) => "  "@ + m + "\n"@,
            None => ""@,
        }) + refused_lines(o.reports, n),
        (None, None) => "[ERROR] edit "@ + path + "\n  internal: no result\n"@,
    }
}

/// The report of an edit.
pub open spec fn outcome_text(path: Seq<char>, o: OutcomeView) -> Seq<char> {
    outcome_body(path, o) + note_lines(o.notes, o.notes.len() as int)
}

fn is_ok(r: &HunkReport) -> (b: bool)
    ensures
        b == (r@.status == "ok"@),
{
    text_eq(r.status.as_str(), "ok")
}

/// Which hunks a listing covers, and how.
#[derive(Clone, Copy, PartialEq, Eq, Structural)]
enum Listing {
    Every,
    Placed,
    Failed,
    Refused,
}

spec fn listed(kind: Listing, reports: Seq<ReportView>, n: int) -> Seq<char> {
    match kind {
        Listing::Every => every_line(reports, n),
        Listing::Placed => placed_lines(reports, n),
        Listing::Failed => failed_lines(reports, n),
        Listing::Refused => refused_lines(reports, n),
    }
}

fn list_hunks(out: &mut String, kind: Listing, reports: &[HunkReport])
    ensures
        final(out)@ == old(out)@ + listed(kind, report_views(reports@), reports@.len() as int),
{
    let ghost base = out@;
    let ghost v = report_views(reports@);
    let mut i: usize = 0;
    proof {
        assert(base + listed(kind, v, 0) =~= base);
    }
    while i < reports.len()
        invariant
            i <= reports@.len(),
            v == report_views(reports@),
            out@ == base + listed(kind, v, i as int),
        decreases reports@.len() - i,
    {
        let r: &HunkReport = &reports[i];
        proof {
            assert(v[i as int] == r@);
        }
        let ok: bool = is_ok(r);
        let ghost now = out@;
        match kind {
            Listing::Every => {
                let mut l: String = "  ".to_owned();
                l.append(hunk_ok_line(r).as_str());
                l.append("\n");
                out.append(l.as_str());
            },
            Listing::Placed => {
                if ok {
                    let mut l: String = "  ".to_owned();
                    l.append(hunk_ok_line(r).as_str());
                    l.append("\n");
                    out.append(l.as_str());
                }
            },
            Listing::Failed => {
                if !ok {
                    render_hunk_error(out, r);
                }
            },
            Listing::Refused => {
                if ok {
                    let mut l: String = "  hunk".to_owned();
                    l.append(decimal_size(r.index).as_str());
                    l.append(" ");
                    l.append(r.kind.as_str());
                    l.append(": ok (not applied — all-or-nothing)\n");
                    out.append(l.as_str());
                } else {
                    render_hunk_error(out, r);
                }
            },
        }
        i = i + 1;
        proof {
            assert(out@ =~= base + listed(kind, v, i as int));
        }
    }
}

/// Counts the hunks that were placed.
pub fn count_placed(reports: &[HunkReport]) -> (n: usize)
    ensures
        n == placed_count(report_views(reports@), reports@.len() as int),
{
    let mut n: usize = 0;
    let mut i: usize = 0;
    while i < reports.len()
        invariant
            i <= reports@.len(),
            n <= i,
            n == placed_count(report_views(reports@), i as int),
        decreases reports@.len() - i,
    {
        proof {
            assert(report_views(reports@)[i as int] == reports@[i as int]@);
        }
        if is_ok(&reports[i]) {
            n = n + 1;
        }
        i = i + 1;
    }
    n
}

fn short_hash(h: &Option<String>) -> (out: String)
    ensures
        out@ == hash8(opt_text(*h)),
{
    let c: Vec<char> = chars_of(opt_str(h));
    let k: usize = if c.len() <= 8 { c.len() } else { 8 };
    let t: Vec<char> = slice_of(c.as_slice(), 0, k);
    proof {
        if c@.len() <= 8 {
            assert(c@.subrange(0, k as int) =~= c@);
        } else {
            assert(c@.subrange(0, 8) =~= c@.take(8));
        }
    }
    string_of(t.as_slice())
}

/// Writes the report of an edit.
pub fn render_text(path: &str, outcome: &FileOutcome) -> (out: String)
    ensures
        out@ == outcome_text(path@, outcome@),
{
    let n: usize = outcome.reports.len();
    let ghost v = report_views(outcome.reports@);
    let mut out: String = String::new();
    let wrote: bool = outcome.edited.is_some();
    match &outcome.code {
        None => {
            if wrote {
                out = "[OK] edit ".to_owned();
                out.append(path);
                out.append("\n  ");
                out.append(decimal_size(n).as_str());
                out.append("/");
                out.append(decimal_size(n).as_str());
                out.append(" hunks applied (new_hash ");
                out.append(short_hash(&outcome.new_hash).as_str());
                out.append(")\n");
                list_hunks(&mut out, Listing::Every, outcome.reports.as_slice());
            } else {
                out = "[ERROR] edit ".to_owned();
                out.append(path);
                out.append("\n  internal: no result\n");
            }
        },
        Some(code) => {
            if wrote {
                out = "[PARTIAL] edit ".to_owned();
                out.append(path);
                out.append("\n  applied ");
                out.append(decimal_size(count_placed(outcome.reports.as_slice())).as_str());
                out.append("/");
                out.append(decimal_size(n).as_str());
                out.append(" hunks (new_hash ");
                out.append(short_hash(&outcome.new_hash).as_str());
                out.append(")\n");
                list_hunks(&mut out, Listing::Placed, outcome.reports.as_slice());
                list_hunks(&mut out, Listing::Failed, outcome.reports.as_slice());
                out.append("  next: re-send ONLY the failed hunks with \"expected_hash\": \"");
                out.append(opt_str(&outcome.new_hash));
                out.append("\" — already-applied hunks will conflict if repeated\n");
            } else {
                out = "[ERROR] edit ".to_owned();
                out.append(path);
                out.append("\n  no changes written (");
                out.append(code.as_str());
                out.append(")\n");
                let message: String = match &outcome.message {
                    Some(m) => {
                        let mut t: String = "  ".to_owned();
                        t.append(m.as_str());
                        t.append("\n");
                        t
                    },
                    None => "".to_owned(),
                };
                out.append(message.as_str());
                list_hunks(&mut out, Listing::Refused, outcome.reports.as_slice());
            }
        },
    }
    let ghost body = out@;
    proof {
        assert(body == outcome_body(path@, outcome@));
        assert(body + note_lines(texts(outcome.notes@), 0) =~= body);
    }
    let mut i: usize = 0;
    while i < outcome.notes.len()
        invariant
            i <= outcome.notes@.len(),
            out@ == body + note_lines(texts(outcome.notes@), i as int),
        decreases outcome.notes@.len() - i,
    {
        proof {
            assert(texts(outcome.notes@)[i as int] == outcome.notes@[i as int]@);
        }
        let mut l: String = "  note: ".to_owned();
        l.append(outcome.notes[i].as_str());
        l.append("\n");
        out.append(l.as_str());
        i = i + 1;
        proof {
            assert(out@ =~= body + note_lines(texts(outcome.notes@), i as int));
        }
    }
    out
}

/// A content cut to whole characters within the limit, with a mark that says so.
pub open spec fn capped(content: Seq<char>) -> Seq<char> {
    if byte_len(content) <= CONTENT_CAP {
        content
    } else {
        content.take(fitting(content, CONTENT_CAP as nat) as int) + "…[truncated: "@ + dec(
            byte_len(content),
        ) + " bytes total]"@
    }
}

/// Cuts a content to the limit.
pub fn truncate_content(content: &str) -> (out: String)
    ensures
        out@ == capped(content@),
{
    let c: Vec<char> = chars_of(content);
    let total: u128 = byte_length(c.as_slice());
    if total <= CONTENT_CAP as u128 {
        return content.to_owned();
    }
    let k: usize = chars_fitting(c.as_slice(), CONTENT_CAP as u128);
    let t: Vec<char> = slice_of(c.as_slice(), 0, k);
    proof {
        assert(c@.subrange(0, k as int) =~= c@.take(k as int));
    }
    let mut out: String = string_of(t.as_slice());
    out.append("…[truncated: ");
    out.append(decimal_big(total).as_str());
    out.append(" bytes total]");
    out
}

/// What to try next after an error.
pub open spec fn hint_text(code: Seq<char>) -> Option<Seq<char>> {
    if code == "NO_MATCH"@ {
        Some("Refine 'old'/context from the candidates, or re-locate with rg."@)
    } else if code == "AMBIGUOUS_MATCH"@ {
        Some("Add context_before/context_after to disambiguate the repeated occurrence."@)
    } else if code == "OVERLAPPING_HUNKS"@ {
        Some("Split or merge hunks so their resolved ranges do not overlap."@)
    } else if code == "UNDERSPECIFIED"@ {
        Some("Provide context, or use insert_after / insert_before / prepend_file / append_file."@)
    } else if code == "OVERWRITE_EXCLUSIVE"@ {
        Some("overwrite replaces the whole file — send it as the only hunk in the call."@)
    } else if code == "HASH_MISMATCH"@ {
        Some(
            "Re-read the file with read and retry with the fresh hash (or omit expected_hash to edit without verification)."@,
        )
    } else if code == "INVALID_REGEX"@ {
        Some("replace_inline: fix the regex (regex crate syntax) and retry."@)
    } else {
        None
    }
}

/// What to try next after an error.
pub fn hint_for(code: &str) -> (r: Option<&'static str>)
    ensures
        match r {
            Some(t) => hint_text(code@) == Some(t@),
            None => hint_text(code@) is None,
        },
{
    if text_eq(code, "NO_MATCH") {
        Some("Refine 'old'/context from the candidates, or re-locate with rg.")
    } else if text_eq(code, "AMBIGUOUS_MATCH") {
        Some("Add context_before/context_after to disambiguate the repeated occurrence.")
    } else if text_eq(code, "OVERLAPPING_HUNKS") {
        Some("Split or merge hunks so their resolved ranges do not overlap.")
    } else if text_eq(code, "UNDERSPECIFIED") {
        Some("Provide context, or use insert_after / insert_before / prepend_file / append_file.")
    } else if text_eq(code, "OVERWRITE_EXCLUSIVE") {
        Some("overwrite replaces the whole file — send it as the only hunk in the call.")
    } else if text_eq(code, "HASH_MISMATCH") {
        Some(
            "Re-read the file with read and retry with the fresh hash (or omit expected_hash to edit without verification).",
        )
    } else if text_eq(code, "INVALID_REGEX") {
        Some("replace_inline: fix the regex (regex crate syntax) and retry.")
    } else {
        None
    }
}

} // verus!
