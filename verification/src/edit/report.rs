//! What is kept and handed back after an edit: the data on every hunk, and the
//! entry in the ledger.

use vstd::prelude::*;

use crate::edit::candidate::{cand_views, Candidate, CandidateView};
use crate::edit::matching::SCORE_ONE;
use crate::edit::transaction::{HunkReport, ReportView};
use crate::format::{dec, decimal};
use crate::json::{opt_text, Json};
use crate::json_view::{
    item_views, json_arr, json_arr_two, json_obj, json_str, json_view, no_members, pair_views, with_member,
    JsonView,
};
use crate::ledger::{after_edit, after_write, record_edit_with_shifts, record_write, Ledger};
use crate::text::{chars_of, slice_of, string_of};

verus! {

/// A score as a decimal number with all its nine decimals.
pub open spec fn score_decimal(score: nat) -> Seq<char> {
    dec(score / SCORE_ONE as nat) + "."@ + dec(SCORE_ONE as nat + score % SCORE_ONE as nat).skip(1)
}

/// A number of the data.
pub open spec fn number(n: int) -> JsonView {
    if n < 0 {
        JsonView::Int(n as i64)
    } else {
        JsonView::Uint(n as u64)
    }
}

/// A member that is there only where there is a value for it.
pub open spec fn if_any(key: Seq<char>, value: Option<JsonView>) -> Seq<(Seq<char>, JsonView)> {
    match value {
        Some(v) => seq![(key, v)],
        None => Seq::<(Seq<char>, JsonView)>::empty(),
    }
}

/// A text of the data.
pub open spec fn text_member(t: Option<Seq<char>>) -> Option<JsonView> {
    match t {
        Some(s) => Some(JsonView::Str(s)),
        None => None,
    }
}

/// The data on a candidate.
pub open spec fn candidate_data(c: CandidateView) -> JsonView {
    JsonView::Obj(
        seq![
            ("line_range"@, JsonView::Arr(seq![number(c.first), number(c.last)])),
            ("snippet"@, JsonView::Str(c.snippet)),
            ("score"@, JsonView::Float(score_decimal(c.score))),
            ("tier"@, number(c.tier)),
            ("diff"@, JsonView::Str(c.diff)),
        ],
    )
}

/// The data on some candidates.
pub open spec fn candidates_data(c: Seq<CandidateView>) -> Seq<JsonView> {
    Seq::new(c.len(), |i: int| candidate_data(c[i]))
}

/// What the data says of a hint that was used: the hint, the line that was found,
/// and by how much the two differ.
pub open spec fn hint_data(r: ReportView) -> Seq<(Seq<char>, JsonView)> {
    match r.used_hint {
        None => Seq::<(Seq<char>, JsonView)>::empty(),
        Some(h) => match r.line_range {
            None => seq![("used_hint"@, number(h as int))],
            Some(l) => seq![
                ("used_hint"@, number(h as int)),
                ("actual_line"@, number(l.0)),
                ("line_offset"@, number(l.0 - h)),
            ],
        },
    }
}

/// The members of the data on a hunk.
pub open spec fn report_members(r: ReportView) -> Seq<(Seq<char>, JsonView)> {
    seq![
        ("index"@, number(r.index)),
        ("kind"@, JsonView::Str(r.kind)),
        ("status"@, JsonView::Str(r.status)),
    ] + if_any(
        "tier"@,
        match r.tier {
            Some(t) => Some(number(t)),
            None => None,
        },
    ) + if_any(
        "score"@,
        match r.score {
            Some(s) => Some(JsonView::Float(score_decimal(s))),
            None => None,
        },
    ) + if_any(
        "line_range"@,
        match r.line_range {
            Some(l) => Some(JsonView::Arr(seq![number(l.0), number(l.1)])),
            None => None,
        },
    ) + hint_data(r) + if_any("note"@, text_member(r.note)) + if_any("code"@, text_member(r.code))
        + if_any("detail"@, text_member(r.detail)) + if_any(
        "candidates"@,
        match r.candidates {
            Some(c) => Some(JsonView::Arr(candidates_data(c))),
            None => None,
        },
    )
}

/// Writes a score as a decimal number.
pub fn score_text(score: u64) -> (out: String)
    ensures
        out@ == score_decimal(score as nat),
{
    let mut out: String = decimal(score / SCORE_ONE);
    out.append(".");
    let tail: Vec<char> = chars_of(decimal(SCORE_ONE + score % SCORE_ONE).as_str());
    proof {
        assert(dec(SCORE_ONE as nat + score as nat % SCORE_ONE as nat).len() >= 1);
    }
    let decimals: Vec<char> = slice_of(tail.as_slice(), 1, tail.len());
    let rest: String = string_of(decimals.as_slice());
    out.append(rest.as_str());
    proof {
        assert(decimals@ =~= tail@.skip(1));
    }
    out
}

fn add_some(pairs: Vec<(String, Json)>, key: &str, value: Option<Json>) -> (out: Vec<(String, Json)>)
    ensures
        pair_views(out@) == pair_views(pairs@) + if_any(
            key@,
            match value {
                Some(v) => Some(json_view(v)),
                None => None,
            },
        ),
{
    match value {
        Some(v) => {
            let out: Vec<(String, Json)> = with_member(pairs, key, v);
            proof {
                assert(pair_views(out@) =~= pair_views(pairs@) + if_any(key@, Some(json_view(v))));
            }
            out
        },
        None => {
            proof {
                assert(pair_views(pairs@) =~= pair_views(pairs@) + if_any(key@, None));
            }
            pairs
        },
    }
}

fn text_json(value: &Option<String>) -> (r: Option<Json>)
    ensures
        text_member(opt_text(*value)) == (match r {
            Some(v) => Some(json_view(v)),
            None => None,
        }),
{
    match value {
        Some(v) => Some(json_str(v.as_str())),
        None => None,
    }
}

fn candidates_json(all: &[Candidate]) -> (r: Json)
    ensures
        json_view(r) == JsonView::Arr(candidates_data(cand_views(all@))),
{
    let mut items: Vec<Json> = Vec::new();
    let mut i: usize = 0;
    while i < all.len()
        invariant
            i <= all@.len(),
            items@.len() == i,
            forall|k: int|
                0 <= k < i ==> json_view(#[trigger] items@[k]) == candidate_data(all@[k]@),
        decreases all@.len() - i,
    {
        items.push(candidate_json(&all[i]));
        i = i + 1;
    }
    proof {
        assert(item_views(items@) =~= candidates_data(cand_views(all@)));
    }
    json_arr(items)
}

fn add_hint(pairs: Vec<(String, Json)>, r: &HunkReport) -> (out: Vec<(String, Json)>)
    requires
        r.line_range matches Some(l) ==> l.0 <= i64::MAX,
        r.used_hint matches Some(h) ==> h <= i64::MAX,
    ensures
        pair_views(out@) == pair_views(pairs@) + hint_data(r@),
{
    let ghost before = pair_views(pairs@);
    let mut out: Vec<(String, Json)> = pairs;
    match r.used_hint {
        Some(h) => {
            out = with_member(out, "used_hint", Json::Uint(h as u64));
            match r.line_range {
                Some(l) => {
                    out = with_member(out, "actual_line", Json::Uint(l.0 as u64));
                    let offset: Json = if l.0 < h {
                        Json::Int(l.0 as i64 - h as i64)
                    } else {
                        Json::Uint((l.0 - h) as u64)
                    };
                    out = with_member(out, "line_offset", offset);
                },
                None => {},
            }
        },
        None => {},
    }
    proof {
        assert(pair_views(out@) =~= before + hint_data(r@));
    }
    out
}

fn candidate_json(c: &Candidate) -> (r: Json)
    ensures
        json_view(r) == candidate_data(c@),
{
    let mut pairs: Vec<(String, Json)> = no_members();
    let lines: Json = json_arr_two(
        Json::Uint(c.line_range.0 as u64),
        Json::Uint(c.line_range.1 as u64),
    );
    pairs = with_member(pairs, "line_range", lines);
    pairs = with_member(pairs, "snippet", json_str(c.snippet.as_str()));
    pairs = with_member(pairs, "score", Json::Float(score_text(c.score)));
    pairs = with_member(pairs, "tier", Json::Uint(c.tier as u64));
    pairs = with_member(pairs, "diff", json_str(c.diff.as_str()));
    proof {
        assert(pair_views(pairs@) =~= candidate_data(c@)->Obj_0);
    }
    json_obj(pairs)
}

/// The data on a hunk. Line numbers stay below `i64::MAX`: no file has more lines.
pub fn hunk_report_json(r: &HunkReport) -> (v: Json)
    requires
        r.line_range matches Some(l) ==> l.0 <= i64::MAX,
        r.used_hint matches Some(h) ==> h <= i64::MAX,
    ensures
        json_view(v) == JsonView::Obj(report_members(r@)),
{
    let mut pairs: Vec<(String, Json)> = no_members();
    pairs = with_member(pairs, "index", Json::Uint(r.index as u64));
    pairs = with_member(pairs, "kind", json_str(r.kind.as_str()));
    pairs = with_member(pairs, "status", json_str(r.status.as_str()));
    proof {
        assert(pair_views(pairs@) =~= seq![
            ("index"@, number(r@.index)),
            ("kind"@, JsonView::Str(r@.kind)),
            ("status"@, JsonView::Str(r@.status)),
        ]);
    }
    let tier: Option<Json> = match r.tier {
        Some(t) => Some(Json::Uint(t as u64)),
        None => None,
    };
    let score: Option<Json> = match r.score {
        Some(s) => Some(Json::Float(score_text(s))),
        None => None,
    };
    let lines: Option<Json> = match r.line_range {
        Some(l) => Some(json_arr_two(Json::Uint(l.0 as u64), Json::Uint(l.1 as u64))),
        None => None,
    };
    let candidates: Option<Json> = match &r.candidates {
        Some(all) => Some(candidates_json(all.as_slice())),
        None => None,
    };
    pairs = add_some(pairs, "tier", tier);
    pairs = add_some(pairs, "score", score);
    pairs = add_some(pairs, "line_range", lines);
    pairs = add_hint(pairs, r);
    pairs = add_some(pairs, "note", text_json(&r.note));
    pairs = add_some(pairs, "code", text_json(&r.code));
    pairs = add_some(pairs, "detail", text_json(&r.detail));
    pairs = add_some(pairs, "candidates", candidates);
    json_obj(pairs)
}

/// The moves of lines in the form that the ledger keeps.
pub open spec fn ledger_moves(shifts: Seq<(usize, i128)>) -> Seq<(usize, i64)> {
    Seq::new(shifts.len(), |i: int| (shifts[i].0, shifts[i].1 as i64))
}

/// Enters a committed edit into the ledger: with the lines that it moved, or, where
/// it moved none that are known, as a write of the whole file.
pub fn record_commit(ledger: &mut Ledger, path: &str, content: &str, shifts: &[(usize, i128)])
    requires
        forall|i: int| 0 <= i < shifts@.len() ==> i64::MIN <= (#[trigger] shifts@[i]).1 <= i64::MAX,
    ensures
        final(ledger)@ == (if shifts@.len() == 0 {
            after_write(old(ledger)@, path@, content@)
        } else {
            after_edit(old(ledger)@, path@, content@, ledger_moves(shifts@))
        }),
{
    let n: usize = shifts.len();
    if n == 0 {
        record_write(ledger, path, content);
        return;
    }
    let mut moves: Vec<(usize, i64)> = Vec::new();
    let mut i: usize = 0;
    while i < n
        invariant
            i <= n == shifts@.len(),
            moves@.len() == i,
            forall|k: int| 0 <= k < i ==> #[trigger] moves@[k] == ledger_moves(shifts@)[k],
            forall|k: int|
                0 <= k < shifts@.len() ==> i64::MIN <= (#[trigger] shifts@[k]).1 <= i64::MAX,
        decreases n - i,
    {
        moves.push((shifts[i].0, shifts[i].1 as i64));
        i = i + 1;
    }
    proof {
        assert(moves@ =~= ledger_moves(shifts@));
    }
    record_edit_with_shifts(ledger, path, content, moves.as_slice());
}

/// How the journal calls a committed edit.
pub fn journal_op(shifts: &[(usize, i128)]) -> (op: &'static str)
    ensures
        op@ == (if shifts@.len() == 0 {
            "overwrite"@
        } else {
            "replace"@
        }),
{
    if shifts.len() == 0 {
        "overwrite"
    } else {
        "replace"
    }
}

} // verus!
