//! How much code a call changed.

use vstd::prelude::*;

use crate::json::{arr_at, opt_text, str_at, text_eq, Json};
use crate::numbered::{count_lines, line_count};

verus! {

/// What a call changed.
#[derive(Debug, PartialEq, Eq)]
pub struct CodeDelta {
    pub timestamp: u64,
    pub lines_added: u128,
    pub lines_removed: u128,
    pub files_created: usize,
    pub files_deleted: usize,
    pub file: Option<String>,
}

/// What a call changed.
#[verifier::ext_equal]
pub struct DeltaView {
    pub timestamp: u64,
    pub lines_added: nat,
    pub lines_removed: nat,
    pub files_created: usize,
    pub files_deleted: usize,
    pub file: Option<Seq<char>>,
}

impl View for CodeDelta {
    type V = DeltaView;

    open spec fn view(&self) -> DeltaView {
        DeltaView {
            timestamp: self.timestamp,
            lines_added: self.lines_added as nat,
            lines_removed: self.lines_removed as nat,
            files_created: self.files_created,
            files_deleted: self.files_deleted,
            file: opt_text(self.file),
        }
    }
}

/// The lines of a text member.
pub open spec fn lines_at(v: Json, key: Seq<char>) -> nat {
    match str_at(v, key) {
        Some(s) => line_count(s),
        None => 0,
    }
}

/// The lines of a text member of all values of a list.
pub open spec fn lines_of_all(items: Seq<Json>, key: Seq<char>) -> nat
    decreases items.len(),
{
    if items.len() == 0 {
        0
    } else {
        lines_of_all(items.drop_last(), key) + lines_at(items.last(), key)
    }
}

/// The lines that the hunks of an edit hold.
pub open spec fn hunk_lines(args: Json, key: Seq<char>) -> nat {
    match arr_at(args, "hunks"@) {
        Some(items) => lines_of_all(items, key),
        None => 0,
    }
}

/// What a call changed, by its arguments; nothing for a call that changes no file. Where
/// the repository is known, it says whether the file is new.
pub open spec fn delta_of(
    tool: Seq<char>,
    args: Json,
    now: u64,
    in_git: Option<(usize, usize)>,
) -> Option<DeltaView> {
    let action = match str_at(args, "action"@) {
        Some(a) => a,
        None => tool,
    };
    let file = str_at(args, "path"@);
    let none = DeltaView {
        timestamp: now,
        lines_added: 0,
        lines_removed: 0,
        files_created: 0,
        files_deleted: 0,
        file,
    };
    let base = if tool == "file"@ && action == "write"@ {
        Some(
            DeltaView { lines_added: lines_at(args, "content"@), files_created: 1, ..none },
        )
    } else if tool == "delete"@ {
        Some(DeltaView { files_deleted: 1, ..none })
    } else if tool == "edit"@ {
        Some(
            DeltaView {
                lines_added: hunk_lines(args, "new"@),
                lines_removed: hunk_lines(args, "old"@),
                files_created: 1,
                ..none
            },
        )
    } else {
        None
    };
    match (base, file, in_git) {
        (Some(d), Some(_), Some(g)) => Some(
            DeltaView { files_created: g.0, files_deleted: g.1, ..d },
        ),
        _ => base,
    }
}

fn count_at(v: &Json, key: &str) -> (n: usize)
    ensures
        n == lines_at(*v, key@),
{
    match v.get_str(key) {
        Some(s) => count_lines(s),
        None => 0,
    }
}

fn count_hunks(args: &Json, key: &str) -> (n: u128)
    ensures
        n == hunk_lines(*args, key@),
{
    match args.get_array("hunks") {
        Some(items) => {
            let mut n: u128 = 0;
            let total: usize = items.len();
            let mut i: usize = 0;
            proof {
                assert(items@.take(0) =~= Seq::<Json>::empty());
            }
            while i < total
                invariant
                    i <= total,
                    total == items@.len(),
                    n == lines_of_all(items@.take(i as int), key@),
                    n <= i * usize::MAX,
                decreases items@.len() - i,
            {
                proof {
                    assert(items@.take(i + 1).drop_last() =~= items@.take(i as int));
                    assert(items@.take(i + 1).last() == items@[i as int]);
                    assert(i * usize::MAX + usize::MAX == (i + 1) * usize::MAX) by (nonlinear_arith);
                    assert((i + 1) * usize::MAX <= usize::MAX * usize::MAX) by (nonlinear_arith)
                        requires
                            i + 1 <= usize::MAX,
                    ;
                    assert(usize::MAX * usize::MAX <= u128::MAX) by (nonlinear_arith)
                        requires
                            usize::MAX <= 0xffff_ffff_ffff_ffffu64,
                    ;
                }
                n = n + count_at(&items[i], key) as u128;
                i = i + 1;
            }
            proof {
                assert(items@.take(i as int) =~= items@);
            }
            n
        },
        None => 0,
    }
}

/// Says what a call changed. `in_git` holds the numbers of files that the repository
/// finds created and deleted, where it is known.
pub fn compute(tool_name: &str, args: &Json, now: u64, in_git: Option<(usize, usize)>) -> (r: Option<
    CodeDelta,
>)
    ensures
        match r {
            Some(d) => delta_of(tool_name@, *args, now, in_git) == Some(d@),
            None => delta_of(tool_name@, *args, now, in_git) is None,
        },
{
    let action: &str = match args.get_str("action") {
        Some(a) => a,
        None => tool_name,
    };
    let file: Option<String> = match args.get_str("path") {
        Some(p) => Some(p.to_owned()),
        None => None,
    };
    let known: bool = file.is_some();
    let mut d: CodeDelta = CodeDelta {
        timestamp: now,
        lines_added: 0,
        lines_removed: 0,
        files_created: 0,
        files_deleted: 0,
        file,
    };
    if text_eq(tool_name, "file") && text_eq(action, "write") {
        d.lines_added = count_at(args, "content") as u128;
        d.files_created = 1;
    } else if text_eq(tool_name, "delete") {
        d.files_deleted = 1;
    } else if text_eq(tool_name, "edit") {
        d.lines_added = count_hunks(args, "new");
        d.lines_removed = count_hunks(args, "old");
        d.files_created = 1;
    } else {
        return None;
    }
    if known {
        match in_git {
            Some(g) => {
                d.files_created = g.0;
                d.files_deleted = g.1;
            },
            None => {},
        }
    }
    Some(d)
}

/// What the repository says of a file: created when the last commit does not hold it.
pub fn git_file_meta(in_last_commit: bool) -> (r: (usize, usize))
    ensures
        r.0 == if in_last_commit {
            0usize
        } else {
            1
        },
        r.1 == 0,
{
    if in_last_commit {
        (0, 0)
    } else {
        (1, 0)
    }
}

} // verus!
