//! What is made of a repository's answers.

use vstd::prelude::*;

use crate::json::{text_eq, texts};
use crate::text::string_of;

verus! {

/// What the repository says of a file, in the index and in the working tree.
#[derive(Debug, Clone, Copy, PartialEq, Eq, Structural)]
pub struct FileStatus {
    pub added: bool,
    pub deleted: bool,
    pub modified: bool,
    pub renamed: bool,
}

/// The change of a file, in a word; nothing for a file that is as it was.
pub open spec fn change_word(s: FileStatus) -> Option<Seq<char>> {
    if s.added {
        Some("added"@)
    } else if s.deleted {
        Some("deleted"@)
    } else if s.modified {
        Some("modified"@)
    } else if s.renamed {
        Some("renamed"@)
    } else {
        None
    }
}

/// A file that changed.
#[derive(Debug, PartialEq, Eq)]
pub struct ChangedFile {
    pub path: String,
    pub change: &'static str,
}

/// The files that changed, in order, each with its change.
pub open spec fn changed(files: Seq<(String, FileStatus)>) -> Seq<(Seq<char>, Seq<char>)>
    decreases files.len(),
{
    if files.len() == 0 {
        Seq::empty()
    } else {
        let before = changed(files.drop_last());
        match change_word(files.last().1) {
            Some(w) => before.push((files.last().0@, w)),
            None => before,
        }
    }
}

/// What some files say.
pub open spec fn changed_views(v: Seq<ChangedFile>) -> Seq<(Seq<char>, Seq<char>)> {
    Seq::new(v.len(), |i: int| (v[i].path@, v[i].change@))
}

fn word_of(s: FileStatus) -> (r: Option<&'static str>)
    ensures
        match r {
            Some(w) => change_word(s) == Some(w@),
            None => change_word(s) is None,
        },
{
    if s.added {
        Some("added")
    } else if s.deleted {
        Some("deleted")
    } else if s.modified {
        Some("modified")
    } else if s.renamed {
        Some("renamed")
    } else {
        None
    }
}

/// Lists the files that changed.
pub fn status_list(files: &[(String, FileStatus)]) -> (out: Vec<ChangedFile>)
    ensures
        changed_views(out@) == changed(files@),
{
    let mut out: Vec<ChangedFile> = Vec::new();
    let mut i: usize = 0;
    proof {
        assert(files@.take(0) =~= Seq::<(String, FileStatus)>::empty());
        assert(changed_views(out@) =~= Seq::empty());
    }
    while i < files.len()
        invariant
            i <= files@.len(),
            changed_views(out@) == changed(files@.take(i as int)),
        decreases files@.len() - i,
    {
        let ghost before = out@;
        proof {
            assert(files@.take(i + 1).drop_last() =~= files@.take(i as int));
            assert(files@.take(i + 1).last() == files@[i as int]);
        }
        match word_of(files[i].1) {
            Some(w) => {
                out.push(ChangedFile { path: files[i].0.clone(), change: w });
                proof {
                    assert(changed_views(out@) =~= changed_views(before).push(
                        (files@[i as int].0@, w@),
                    ));
                }
            },
            None => {},
        }
        i = i + 1;
    }
    proof {
        assert(files@.take(i as int) =~= files@);
    }
    out
}

/// What the repository says of its head.
#[derive(Debug, PartialEq, Eq)]
pub enum Head {
    /// It could not be opened.
    NoRepository { error: String },
    /// It has none.
    Absent,
    /// A branch, with its short name where it can be read, or something else.
    At { is_branch: bool, shorthand: Option<String> },
}

/// The branch that is checked out: empty when none is, `HEAD` when its name cannot be read.
pub open spec fn branch_of(head: Head) -> Result<Seq<char>, Seq<char>> {
    match head {
        Head::NoRepository { error } => Err("open repo: "@ + error@),
        Head::Absent => Err("no HEAD"@),
        Head::At { is_branch, shorthand } => if !is_branch {
            Ok(""@)
        } else if shorthand is Some {
            Ok(shorthand->0@)
        } else {
            Ok("HEAD"@)
        },
    }
}

/// The branch that is checked out.
pub fn current_branch(head: Head) -> (r: Result<String, String>)
    ensures
        match branch_of(head) {
            Ok(b) => r matches Ok(s) && s@ == b,
            Err(e) => r matches Err(f) && f@ == e,
        },
{
    match head {
        Head::NoRepository { error } => {
            let mut e: String = "open repo: ".to_owned();
            e.append(error.as_str());
            Err(e)
        },
        Head::Absent => Err("no HEAD".to_owned()),
        Head::At { is_branch, shorthand } => {
            if is_branch {
                match shorthand {
                    Some(s) => Ok(s),
                    None => Ok("HEAD".to_owned()),
                }
            } else {
                Ok("".to_owned())
            }
        },
    }
}

/// The branches with a name, in order, and whether each is checked out.
pub open spec fn branches(names: Seq<Seq<char>>, head: Option<Seq<char>>) -> Seq<(Seq<char>, bool)>
    decreases names.len(),
{
    if names.len() == 0 {
        Seq::empty()
    } else {
        let before = branches(names.drop_last(), head);
        if names.last().len() == 0 {
            before
        } else {
            before.push((names.last(), head == Some(names.last())))
        }
    }
}

/// What some branches say.
pub open spec fn branch_views(v: Seq<(String, bool)>) -> Seq<(Seq<char>, bool)> {
    Seq::new(v.len(), |i: int| (v[i].0@, v[i].1))
}

/// Lists the branches that have a name.
pub fn branch_list(names: &[String], head: Option<&str>) -> (out: Vec<(String, bool)>)
    ensures
        branch_views(out@) == branches(
            texts(names@),
            match head {
                Some(h) => Some(h@),
                None => None,
            },
        ),
{
    let mut out: Vec<(String, bool)> = Vec::new();
    let ghost t = texts(names@);
    let ghost h: Option<Seq<char>> = match head {
        Some(h) => Some(h@),
        None => None,
    };
    let mut i: usize = 0;
    proof {
        assert(t.take(0) =~= Seq::<Seq<char>>::empty());
        assert(branch_views(out@) =~= Seq::empty());
    }
    while i < names.len()
        invariant
            i <= names@.len(),
            t == texts(names@),
            h == (match head {
                Some(x) => Some(x@),
                None => None,
            }),
            branch_views(out@) == branches(t.take(i as int), h),
        decreases names@.len() - i,
    {
        let ghost before = out@;
        let name: &str = names[i].as_str();
        proof {
            assert(t.take(i + 1).drop_last() =~= t.take(i as int));
            assert(t.take(i + 1).last() == name@);
        }
        if !name.is_empty() {
            let current: bool = match head {
                Some(x) => text_eq(x, name),
                None => false,
            };
            out.push((names[i].clone(), current));
            proof {
                assert(branch_views(out@) =~= branch_views(before).push((name@, current)));
            }
        }
        i = i + 1;
    }
    proof {
        assert(t.take(i as int) =~= t);
    }
    out
}

/// A line of a diff as the repository gives it: where it comes from, and its text.
#[derive(Debug, PartialEq, Eq)]
pub struct DiffLine {
    pub origin: char,
    pub content: String,
}

/// A line of a patch: headers are whole lines already, any other line follows its mark.
pub open spec fn patch_line(l: DiffLine) -> Seq<char> {
    if l.origin == 'F' || l.origin == 'H' {
        l.content@
    } else {
        seq![l.origin] + l.content@
    }
}

/// The lines of a patch.
pub open spec fn patch_lines(lines: Seq<DiffLine>) -> Seq<char>
    decreases lines.len(),
{
    if lines.len() == 0 {
        Seq::empty()
    } else {
        patch_lines(lines.drop_last()) + patch_line(lines.last())
    }
}

/// Writes the patch of a file.
pub fn patch_of_lines(lines: &[DiffLine]) -> (out: String)
    ensures
        out@ == patch_lines(lines@),
{
    let mut out: String = String::new();
    let mut i: usize = 0;
    proof {
        assert(lines@.take(0) =~= Seq::<DiffLine>::empty());
    }
    while i < lines.len()
        invariant
            i <= lines@.len(),
            out@ == patch_lines(lines@.take(i as int)),
        decreases lines@.len() - i,
    {
        let l: &DiffLine = &lines[i];
        let ghost before = out@;
        proof {
            assert(lines@.take(i + 1).drop_last() =~= lines@.take(i as int));
            assert(lines@.take(i + 1).last() == *l);
        }
        if l.origin != 'F' && l.origin != 'H' {
            let mark: Vec<char> = vec![l.origin];
            out.append(string_of(mark.as_slice()).as_str());
            proof {
                assert(mark@ =~= seq![l.origin]);
            }
        }
        out.append(l.content.as_str());
        proof {
            assert(out@ =~= before + patch_line(*l));
        }
        i = i + 1;
    }
    proof {
        assert(lines@.take(i as int) =~= lines@);
    }
    out
}

/// Whether changes are put aside before a branch is switched to: only when that is
/// asked for and there are any.
pub fn puts_changes_aside(asked: bool, has_changes: bool) -> (r: bool)
    ensures
        r == (asked && has_changes),
{
    asked && has_changes
}

} // verus!
