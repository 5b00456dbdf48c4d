//! How a call is refused.

use vstd::prelude::*;

use crate::edit::candidate::{cand_views, Candidate, CandidateView};
use crate::json::opt_text;

verus! {

/// Why a call is refused, and what the caller is told.
#[derive(Debug, PartialEq, Eq)]
pub struct Refusal {
    /// The code; empty for an error that has none.
    pub code: String,
    /// The text shown.
    pub text: String,
    /// The message in the data.
    pub message: String,
    pub retryable: bool,
    pub hint: Option<String>,
    pub hash: Option<String>,
    pub total_lines: Option<usize>,
    pub candidates: Option<Vec<Candidate>>,
}

/// What a refusal says.
#[verifier::ext_equal]
pub struct RefusalView {
    pub code: Seq<char>,
    pub text: Seq<char>,
    pub message: Seq<char>,
    pub retryable: bool,
    pub hint: Option<Seq<char>>,
    pub hash: Option<Seq<char>>,
    pub total_lines: Option<usize>,
    pub candidates: Option<Seq<CandidateView>>,
}

impl View for Refusal {
    type V = RefusalView;

    open spec fn view(&self) -> RefusalView {
        RefusalView {
            code: self.code@,
            text: self.text@,
            message: self.message@,
            retryable: self.retryable,
            hint: opt_text(self.hint),
            hash: opt_text(self.hash),
            total_lines: self.total_lines,
            candidates: match self.candidates {
                Some(c) => Some(cand_views(c@)),
                None => None,
            },
        }
    }
}

/// A refusal that carries a message and perhaps a hint.
pub open spec fn plain_refusal(code: Seq<char>, message: Seq<char>, hint: Option<Seq<char>>) -> RefusalView {
    RefusalView {
        code,
        text: message,
        message,
        retryable: false,
        hint,
        hash: None,
        total_lines: None,
        candidates: None,
    }
}

/// A refusal that carries a message and perhaps a hint.
pub fn refuse(code: &str, message: String, hint: Option<&str>) -> (r: Refusal)
    ensures
        r@ == plain_refusal(
            code@,
            message@,
            match hint {
                Some(h) => Some(h@),
                None => None,
            },
        ),
{
    Refusal {
        code: code.to_owned(),
        text: message.clone(),
        message,
        retryable: false,
        hint: match hint {
            Some(h) => Some(h.to_owned()),
            None => None,
        },
        hash: None,
        total_lines: None,
        candidates: None,
    }
}

} // verus!
