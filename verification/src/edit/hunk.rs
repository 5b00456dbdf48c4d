//! Hunks: what an edit call asks for.

use vstd::prelude::*;

use crate::file_shared::{has_cr, lf_view, normalize_newlines};
use crate::json::{bool_at, str_at, text_eq, texts, u64_at, Json};

verus! {

/// One edit. All texts are in the newline view.
#[derive(Debug, PartialEq, Eq)]
pub enum Hunk {
    /// Replaces `old`; an empty `old` inserts between the two contexts.
    /// `replace_all` replaces every exact occurrence.
    Replace {
        old: String,
        new: String,
        context_before: String,
        context_after: String,
        replace_all: bool,
        hint_line: Option<usize>,
    },
    /// Replaces the whole file.
    Overwrite { new: String },
    /// Inserts after the lines of the anchor.
    InsertAfter { anchor: String, new: String, hint_line: Option<usize> },
    /// Inserts before the lines of the anchor.
    InsertBefore { anchor: String, new: String, hint_line: Option<usize> },
    /// Replaces inside the lines of the anchor, never across lines.
    ReplaceInline {
        anchor: String,
        old: String,
        new: String,
        replace_all: bool,
        regex: bool,
        hint_line: Option<usize>,
    },
    /// Inserts at the start of the file.
    PrependFile { new: String },
    /// Inserts at the end of the file.
    AppendFile { new: String },
}

/// The name of a hunk's kind.
pub open spec fn kind_of(h: Hunk) -> Seq<char> {
    match h {
        Hunk::Replace { .. } => "replace"@,
        Hunk::Overwrite { .. } => "overwrite"@,
        Hunk::InsertAfter { .. } => "insert_after"@,
        Hunk::InsertBefore { .. } => "insert_before"@,
        Hunk::ReplaceInline { .. } => "replace_inline"@,
        Hunk::PrependFile { .. } => "prepend_file"@,
        Hunk::AppendFile { .. } => "append_file"@,
    }
}

/// The line hint of a request: 1-based, 0 counts as 1.
pub open spec fn hint_at(v: Json) -> Option<usize> {
    match u64_at(v, "hint_line"@) {
        Some(n) => Some(if n == 0 { 1usize } else { n as usize }),
        None => None,
    }
}

/// The line hint of a request.
pub fn parse_hint_line(v: &Json) -> (r: Option<usize>)
    ensures
        r == hint_at(*v),
{
    match v.get_u64("hint_line") {
        Some(n) => Some(if n == 0 { 1usize } else { n as usize }),
        None => None,
    }
}

/// The text of an optional field, empty when absent.
pub open spec fn text_or_empty(v: Json, key: Seq<char>) -> Seq<char> {
    match str_at(v, key) {
        Some(s) => s,
        None => ""@,
    }
}

/// The value of an optional flag, off when absent.
pub open spec fn flag(v: Json, key: Seq<char>) -> bool {
    match bool_at(v, key) {
        Some(b) => b,
        None => false,
    }
}

/// The message for a missing field.
pub open spec fn requires_field(kind: Seq<char>, field: Seq<char>) -> Seq<char> {
    kind + " hunk requires '"@ + field + "'"@
}

/// Why a request is no hunk, if it is none.
pub open spec fn hunk_error(v: Json) -> Option<Seq<char>> {
    match str_at(v, "kind"@) {
        None => Some("missing 'kind'"@),
        Some(kind) => {
            if kind == "replace"@ {
                if str_at(v, "old"@) is None {
                    Some(requires_field(kind, "old"@))
                } else if str_at(v, "new"@) is None {
                    Some(requires_field(kind, "new"@))
                } else {
                    None
                }
            } else if kind == "overwrite"@ || kind == "prepend_file"@ || kind == "append_file"@ {
                if str_at(v, "new"@) is None {
                    Some(requires_field(kind, "new"@))
                } else {
                    None
                }
            } else if kind == "insert_after"@ || kind == "insert_before"@ {
                if str_at(v, "anchor"@) is None {
                    Some(requires_field(kind, "anchor"@))
                } else if str_at(v, "new"@) is None {
                    Some(requires_field(kind, "new"@))
                } else {
                    None
                }
            } else if kind == "replace_inline"@ {
                if str_at(v, "anchor"@) is None {
                    Some(requires_field(kind, "anchor"@))
                } else if str_at(v, "old"@) is None {
                    Some(requires_field(kind, "old"@))
                } else if str_at(v, "new"@) is None {
                    Some(requires_field(kind, "new"@))
                } else {
                    None
                }
            } else {
                Some(
                    "unknown hunk kind '"@ + kind
                        + "' (expected replace / overwrite / insert_after / insert_before / replace_inline / prepend_file / append_file)"@,
                )
            }
        },
    }
}

/// A field of the hunk holds the newline view of a field of the request.
pub open spec fn carries(field: String, v: Json, key: Seq<char>) -> bool {
    field@ == lf_view(text_or_empty(v, key))
}

/// `h` is the hunk that the request describes.
pub open spec fn describes(v: Json, h: Hunk) -> bool {
    &&& str_at(v, "kind"@) == Some(kind_of(h))
    &&& match h {
        Hunk::Replace { old, new, context_before, context_after, replace_all, hint_line } => {
            &&& carries(old, v, "old"@)
            &&& carries(new, v, "new"@)
            &&& carries(context_before, v, "context_before"@)
            &&& carries(context_after, v, "context_after"@)
            &&& replace_all == flag(v, "replace_all"@)
            &&& hint_line == hint_at(v)
        },
        Hunk::InsertAfter { anchor, new, hint_line } => {
            &&& carries(anchor, v, "anchor"@)
            &&& carries(new, v, "new"@)
            &&& hint_line == hint_at(v)
        },
        Hunk::InsertBefore { anchor, new, hint_line } => {
            &&& carries(anchor, v, "anchor"@)
            &&& carries(new, v, "new"@)
            &&& hint_line == hint_at(v)
        },
        Hunk::ReplaceInline { anchor, old, new, replace_all, regex, hint_line } => {
            &&& carries(anchor, v, "anchor"@)
            &&& carries(old, v, "old"@)
            &&& carries(new, v, "new"@)
            &&& replace_all == flag(v, "replace_all"@)
            &&& regex == flag(v, "regex"@)
            &&& hint_line == hint_at(v)
        },
        Hunk::Overwrite { new } => carries(new, v, "new"@),
        Hunk::PrependFile { new } => carries(new, v, "new"@),
        Hunk::AppendFile { new } => carries(new, v, "new"@),
    }
}

/// How many of a hunk's text fields had carriage returns in the request.
pub open spec fn cr_count(v: Json, h: Hunk) -> nat {
    let n = |key: Seq<char>| if has_cr(text_or_empty(v, key)) { 1nat } else { 0nat };
    match h {
        Hunk::Replace { .. } => n("old"@) + n("new"@) + n("context_before"@) + n("context_after"@),
        Hunk::InsertAfter { .. } => n("anchor"@) + n("new"@),
        Hunk::InsertBefore { .. } => n("anchor"@) + n("new"@),
        Hunk::ReplaceInline { .. } => n("anchor"@) + n("old"@) + n("new"@),
        _ => n("new"@),
    }
}

/// The note that a normalized field leaves behind.
pub open spec fn crlf_note() -> Seq<char> {
    "CRLF in request normalized to LF"@
}

fn norm(s: &str, notes: &mut Vec<String>) -> (out: String)
    ensures
        out@ == lf_view(s@),
        has_cr(s@) ==> texts(final(notes)@) == texts(old(notes)@).push(crlf_note()),
        !has_cr(s@) ==> final(notes)@ == old(notes)@,
{
    let (text, cr): (String, bool) = normalize_newlines(s);
    if cr {
        let note: String = "CRLF in request normalized to LF".to_owned();
        notes.push(note);
        proof {
            assert(texts(notes@) =~= texts(old(notes)@).push(crlf_note()));
        }
    }
    text
}

fn missing(kind: &str, field: &str) -> (out: String)
    ensures
        out@ == requires_field(kind@, field@),
{
    let mut out: String = kind.to_owned();
    out.append(" hunk requires '");
    out.append(field);
    out.append("'");
    out
}

fn or_empty<'a>(s: Option<&'a str>) -> (r: &'a str)
    ensures
        r@ == (match s {
            Some(t) => t@,
            None => ""@,
        }),
{
    match s {
        Some(t) => t,
        None => "",
    }
}

fn or_off(b: Option<bool>) -> (r: bool)
    ensures
        r == (match b {
            Some(x) => x,
            None => false,
        }),
{
    match b {
        Some(x) => x,
        None => false,
    }
}

impl Hunk {
    /// The name of the hunk's kind.
    pub fn kind_name(&self) -> (r: &'static str)
        ensures
            r@ == kind_of(*self),
    {
        match self {
            Hunk::Replace { .. } => "replace",
            Hunk::Overwrite { .. } => "overwrite",
            Hunk::InsertAfter { .. } => "insert_after",
            Hunk::InsertBefore { .. } => "insert_before",
            Hunk::ReplaceInline { .. } => "replace_inline",
            Hunk::PrependFile { .. } => "prepend_file",
            Hunk::AppendFile { .. } => "append_file",
        }
    }

    /// Reads one hunk of a request. Texts are normalized to the newline view, and
    /// each field that held a carriage return leaves a note.
    pub fn parse(v: &Json, notes: &mut Vec<String>) -> (r: Result<Hunk, String>)
        ensures
            match r {
                Ok(h) => {
                    &&& hunk_error(*v) is None
                    &&& describes(*v, h)
                    &&& texts(final(notes)@) == texts(old(notes)@) + Seq::new(
                        cr_count(*v, h),
                        |i: int| crlf_note(),
                    )
                },
                Err(e) => hunk_error(*v) == Some(e@) && final(notes)@ == old(notes)@,
            },
    {
        let kind: &str = match v.get_str("kind") {
            Some(k) => k,
            None => {
                return Err("missing 'kind'".to_owned());
            },
        };
        proof {
            reveal_strlit("replace");
            reveal_strlit("overwrite");
            reveal_strlit("insert_after");
            reveal_strlit("insert_before");
            reveal_strlit("replace_inline");
            reveal_strlit("prepend_file");
            reveal_strlit("append_file");
            assert("insert_after"@[0] != "prepend_file"@[0]);
        }
        let new: Option<&str> = v.get_str("new");
        if text_eq(kind, "replace") {
            let o: &str = match v.get_str("old") {
                Some(s) => s,
                None => {
                    return Err(missing(kind, "old"));
                },
            };
            let n: &str = match new {
                Some(s) => s,
                None => {
                    return Err(missing(kind, "new"));
                },
            };
            let context_before: &str = or_empty(v.get_str("context_before"));
            let context_after: &str = or_empty(v.get_str("context_after"));
            let h: Hunk = Hunk::Replace {
                old: norm(o, notes),
                new: norm(n, notes),
                context_before: norm(context_before, notes),
                context_after: norm(context_after, notes),
                replace_all: or_off(v.get_bool("replace_all")),
                hint_line: parse_hint_line(v),
            };
            proof {
                assert(texts(notes@) =~= texts(old(notes)@) + Seq::new(
                    cr_count(*v, h),
                    |i: int| crlf_note(),
                ));
            }
            return Ok(h);
        }
        if text_eq(kind, "insert_after") || text_eq(kind, "insert_before") {
            let a: &str = match v.get_str("anchor") {
                Some(s) => s,
                None => {
                    return Err(missing(kind, "anchor"));
                },
            };
            let n: &str = match new {
                Some(s) => s,
                None => {
                    return Err(missing(kind, "new"));
                },
            };
            let anchor: String = norm(a, notes);
            let text: String = norm(n, notes);
            let hint_line: Option<usize> = parse_hint_line(v);
            let h: Hunk = if text_eq(kind, "insert_after") {
                Hunk::InsertAfter { anchor, new: text, hint_line }
            } else {
                Hunk::InsertBefore { anchor, new: text, hint_line }
            };
            proof {
                assert(texts(notes@) =~= texts(old(notes)@) + Seq::new(
                    cr_count(*v, h),
                    |i: int| crlf_note(),
                ));
            }
            return Ok(h);
        }
        if text_eq(kind, "replace_inline") {
            let a: &str = match v.get_str("anchor") {
                Some(s) => s,
                None => {
                    return Err(missing(kind, "anchor"));
                },
            };
            let o: &str = match v.get_str("old") {
                Some(s) => s,
                None => {
                    return Err(missing(kind, "old"));
                },
            };
            let n: &str = match new {
                Some(s) => s,
                None => {
                    return Err(missing(kind, "new"));
                },
            };
            let h: Hunk = Hunk::ReplaceInline {
                anchor: norm(a, notes),
                old: norm(o, notes),
                new: norm(n, notes),
                replace_all: or_off(v.get_bool("replace_all")),
                regex: or_off(v.get_bool("regex")),
                hint_line: parse_hint_line(v),
            };
            proof {
                assert(texts(notes@) =~= texts(old(notes)@) + Seq::new(
                    cr_count(*v, h),
                    |i: int| crlf_note(),
                ));
            }
            return Ok(h);
        }
        if text_eq(kind, "overwrite") || text_eq(kind, "prepend_file") || text_eq(
            kind,
            "append_file",
        ) {
            let n: &str = match new {
                Some(s) => s,
                None => {
                    return Err(missing(kind, "new"));
                },
            };
            let text: String = norm(n, notes);
            let h: Hunk = if text_eq(kind, "overwrite") {
                Hunk::Overwrite { new: text }
            } else if text_eq(kind, "prepend_file") {
                Hunk::PrependFile { new: text }
            } else {
                Hunk::AppendFile { new: text }
            };
            proof {
                assert(texts(notes@) =~= texts(old(notes)@) + Seq::new(
                    cr_count(*v, h),
                    |i: int| crlf_note(),
                ));
            }
            return Ok(h);
        }
        let mut e: String = "unknown hunk kind '".to_owned();
        e.append(kind);
        e.append(
            "' (expected replace / overwrite / insert_after / insert_before / replace_inline / prepend_file / append_file)",
        );
        Err(e)
    }
}

} // verus!
