//! Applying patches file by file: what each hunk does to its file, given what is
//! there, and what the whole patch amounts to.

use vstd::prelude::*;

use crate::apply_patch_engine::file_update::{
    derive_new_contents_from_chunks, updated_contents, well_kept, AppliedPatch, UpdateMode,
};
use crate::apply_patch_engine::parser::{
    chunk_views, hunk_views, left_path, parse_error_text, parse_patch, parsed, Hunk, HunkView,
    ParseError, ParseErrorView, ParsedPatch,
};
use crate::json::{opt_text, texts};

verus! {

/// Why a patch cannot be applied.
#[derive(Debug, PartialEq, Eq)]
pub enum EngineError {
    Parse(ParseError),
    Io { context: String, source: String },
    Compute(String),
    EmptyPatch,
    /// A path of the patch leads out of the workspace.
    PathOutsideWorkspace { path: String },
}

/// What an error says.
#[verifier::ext_equal]
pub enum EngineErrorView {
    Parse(ParseErrorView),
    Io { context: Seq<char>, source: Seq<char> },
    Compute(Seq<char>),
    EmptyPatch,
    PathOutsideWorkspace { path: Seq<char> },
}

impl View for EngineError {
    type V = EngineErrorView;

    open spec fn view(&self) -> EngineErrorView {
        match *self {
            EngineError::Parse(e) => EngineErrorView::Parse(e@),
            EngineError::Io { context, source } => EngineErrorView::Io {
                context: context@,
                source: source@,
            },
            EngineError::Compute(m) => EngineErrorView::Compute(m@),
            EngineError::EmptyPatch => EngineErrorView::EmptyPatch,
            EngineError::PathOutsideWorkspace { path } => EngineErrorView::PathOutsideWorkspace {
                path: path@,
            },
        }
    }
}

/// An error in words.
pub open spec fn engine_error_text(e: EngineErrorView) -> Seq<char> {
    match e {
        EngineErrorView::Parse(p) => "invalid patch: "@ + parse_error_text(p),
        EngineErrorView::Io { context, source } => context + ": "@ + source,
        EngineErrorView::Compute(m) => m,
        EngineErrorView::EmptyPatch => "no changes to apply"@,
        EngineErrorView::PathOutsideWorkspace { path } =>
            "patch path resolves outside the workspace: "@ + path,
    }
}

impl EngineError {
    /// The error in words.
    pub fn to_text(&self) -> (out: String)
        ensures
            out@ == engine_error_text(self@),
    {
        match self {
            EngineError::Parse(e) => {
                let mut out: String = "invalid patch: ".to_owned();
                out.append(e.to_text().as_str());
                out
            },
            EngineError::Io { context, source } => {
                let mut out: String = context.clone();
                out.append(": ");
                out.append(source.as_str());
                out
            },
            EngineError::Compute(m) => m.clone(),
            EngineError::EmptyPatch => "no changes to apply".to_owned(),
            EngineError::PathOutsideWorkspace { path } => {
                let mut out: String = "patch path resolves outside the workspace: ".to_owned();
                out.append(path.as_str());
                out
            },
        }
    }
}

/// The files that a patch touches, as the patch spells them.
#[derive(Debug, PartialEq, Eq)]
pub struct AffectedPaths {
    pub added: Vec<String>,
    pub modified: Vec<String>,
    pub deleted: Vec<String>,
}

impl AffectedPaths {
    /// All paths: the added ones, then the modified ones, then the deleted ones.
    pub fn all(&self) -> (out: Vec<&String>)
        ensures
            Seq::new(out@.len(), |i: int| out@[i]@) == texts(self.added@) + texts(self.modified@)
                + texts(self.deleted@),
    {
        let mut out: Vec<&String> = Vec::new();
        push_all(&mut out, &self.added);
        push_all(&mut out, &self.modified);
        push_all(&mut out, &self.deleted);
        proof {
            assert(Seq::new(out@.len(), |i: int| out@[i]@) =~= texts(self.added@) + texts(
                self.modified@,
            ) + texts(self.deleted@));
        }
        out
    }

    /// Whether no file is touched.
    pub fn is_empty(&self) -> (r: bool)
        ensures
            r == (self.added@.len() == 0 && self.modified@.len() == 0 && self.deleted@.len() == 0),
    {
        self.added.len() == 0 && self.modified.len() == 0 && self.deleted.len() == 0
    }
}

fn push_all<'a>(out: &mut Vec<&'a String>, items: &'a Vec<String>)
    ensures
        final(out)@.len() == old(out)@.len() + items@.len(),
        forall|i: int| 0 <= i < old(out)@.len() ==> #[trigger] final(out)@[i] == old(out)@[i],
        forall|i: int|
            old(out)@.len() <= i < final(out)@.len() ==> *#[trigger] final(out)@[i] == items@[i - old(
                out,
            )@.len()],
{
    let ghost before = out@;
    let mut i: usize = 0;
    while i < items.len()
        invariant
            i <= items@.len(),
            out@.len() == before.len() + i,
            forall|k: int| 0 <= k < before.len() ==> #[trigger] out@[k] == before[k],
            forall|k: int|
                before.len() <= k < out@.len() ==> *#[trigger] out@[k] == items@[k - before.len()],
        decreases items@.len() - i,
    {
        out.push(&items[i]);
        i = i + 1;
    }
}

/// One file of an applied patch: what it held before and what it holds after.
#[derive(Debug, PartialEq, Eq)]
pub struct FileDelta {
    pub path: String,
    pub old: Option<String>,
    pub new: Option<String>,
}

/// What a delta says.
#[verifier::ext_equal]
pub struct DeltaView {
    pub path: Seq<char>,
    pub old: Option<Seq<char>>,
    pub new: Option<Seq<char>>,
}

impl View for FileDelta {
    type V = DeltaView;

    open spec fn view(&self) -> DeltaView {
        DeltaView { path: self.path@, old: opt_text(self.old), new: opt_text(self.new) }
    }
}

/// What a list of deltas says.
pub open spec fn delta_views(v: Seq<FileDelta>) -> Seq<DeltaView> {
    Seq::new(v.len(), |i: int| v[i]@)
}

/// What a patch did, or would do.
#[derive(Debug, PartialEq, Eq)]
pub struct ApplyOutcome {
    pub affected: AffectedPaths,
    pub deltas: Vec<FileDelta>,
}

/// What an outcome says.
#[verifier::ext_equal]
pub struct ApplyView {
    pub added: Seq<Seq<char>>,
    pub modified: Seq<Seq<char>>,
    pub deleted: Seq<Seq<char>>,
    pub deltas: Seq<DeltaView>,
}

impl View for ApplyOutcome {
    type V = ApplyView;

    open spec fn view(&self) -> ApplyView {
        ApplyView {
            added: texts(self.affected.added@),
            modified: texts(self.affected.modified@),
            deleted: texts(self.affected.deleted@),
            deltas: delta_views(self.deltas@),
        }
    }
}

/// What is found where a hunk goes.
#[derive(Debug, PartialEq, Eq)]
pub enum Target {
    /// A file, with its text where it has one; else why it cannot be read.
    File(Result<String, String>),
    Directory,
    /// Nothing, with the error of looking.
    Missing(String),
}

/// What is done to a file.
#[derive(Debug, PartialEq, Eq)]
pub enum Change {
    /// The content is written to the path of the hunk.
    Write(String),
    /// The file is removed.
    Remove,
    /// The content is written to the new path, and the file at the old one removed.
    Move(String),
}

/// What a change says.
#[verifier::ext_equal]
pub enum ChangeView {
    Write(Seq<char>),
    Remove,
    Move(Seq<char>),
}

impl View for Change {
    type V = ChangeView;

    open spec fn view(&self) -> ChangeView {
        match *self {
            Change::Write(c) => ChangeView::Write(c@),
            Change::Remove => ChangeView::Remove,
            Change::Move(c) => ChangeView::Move(c@),
        }
    }
}

/// The hunks of a patch that has any.
pub open spec fn hunks_to_apply(patch: Seq<char>) -> Result<Seq<HunkView>, EngineErrorView> {
    match parsed(patch) {
        Err(e) => Err(EngineErrorView::Parse(e)),
        Ok((_, hunks, _)) => if hunks.len() == 0 {
            Err(EngineErrorView::EmptyPatch)
        } else {
            Ok(hunks)
        },
    }
}

/// All changes of a hunk have their context lines in order.
pub open spec fn hunk_well_kept(h: HunkView) -> bool {
    match h {
        HunkView::UpdateFile { chunks, .. } => forall|i: int|
            0 <= i < chunks.len() ==> well_kept(#[trigger] chunks[i]),
        _ => true,
    }
}

/// Reads the hunks of a patch.
pub fn start_patch(patch: &str) -> (r: Result<Vec<Hunk>, EngineError>)
    ensures
        match r {
            Ok(h) => hunks_to_apply(patch@) == Ok::<Seq<HunkView>, EngineErrorView>(
                hunk_views(h@),
            ),
            Err(e) => hunks_to_apply(patch@) == Err::<Seq<HunkView>, EngineErrorView>(e@),
        },
        r matches Ok(h) ==> forall|i: int|
            0 <= i < h@.len() ==> hunk_well_kept((#[trigger] h@[i])@),
{
    let p: ParsedPatch = match parse_patch(patch) {
        Ok(p) => p,
        Err(e) => {
            return Err(EngineError::Parse(e));
        },
    };
    if p.hunks.len() == 0 {
        return Err(EngineError::EmptyPatch);
    }
    proof {
        crate::apply_patch_engine::laws::parsed_changes_are_in_order(patch@);
        assert forall|i: int| 0 <= i < p.hunks@.len() implies hunk_well_kept(
            (#[trigger] p.hunks@[i])@,
        ) by {
            assert(hunk_views(p.hunks@)[i] == p.hunks@[i]@);
        }
    }
    Ok(p.hunks)
}

/// The path whose file a hunk reads: the old one, when it moves the file.
pub open spec fn read_from(h: HunkView) -> Seq<char> {
    match h {
        HunkView::AddFile { path, .. } => path,
        HunkView::DeleteFile { path } => path,
        HunkView::UpdateFile { path, .. } => path,
    }
}

/// The path whose file a hunk reads.
pub fn source_path(h: &Hunk) -> (r: &str)
    ensures
        r@ == read_from(h@),
{
    match h {
        Hunk::AddFile { path, .. } => path.as_str(),
        Hunk::DeleteFile { path } => path.as_str(),
        Hunk::UpdateFile { path, .. } => path.as_str(),
    }
}

/// The error of a hunk that meets a directory.
pub open spec fn directory_error(what: Seq<char>, resolved: Seq<char>) -> EngineErrorView {
    EngineErrorView::Io {
        context: what + resolved + ": path is a directory"@,
        source: "path is a directory"@,
    }
}

/// What a hunk does to its file, given what is found there, and how it reads in the
/// outcome. `resolved` is the path on disk of the file that the hunk reads.
pub open spec fn hunk_change(
    h: HunkView,
    resolved: Seq<char>,
    target: Target,
    mode: UpdateMode,
    dry_run: bool,
) -> Result<(ChangeView, DeltaView), EngineErrorView> {
    match h {
        HunkView::AddFile { path, contents } => if dry_run && target is Directory {
            Err(directory_error("Cannot add file "@, resolved))
        } else {
            Ok((ChangeView::Write(contents), DeltaView { path, old: None, new: Some(contents) }))
        },
        HunkView::DeleteFile { path } => match target {
            Target::Missing(e) => Err(
                EngineErrorView::Io { context: "Failed to delete file "@ + resolved, source: e@ },
            ),
            Target::Directory => Err(directory_error("Failed to delete file "@, resolved)),
            Target::File(t) => Ok(
                (
                    ChangeView::Remove,
                    DeltaView {
                        path,
                        old: match t {
                            Ok(s) => Some(s@),
                            Err(_) => None,
                        },
                        new: None,
                    },
                ),
            ),
        },
        HunkView::UpdateFile { move_path, chunks, .. } => match target {
            Target::File(Ok(s)) => match updated_contents(s@, resolved, chunks, mode) {
                Err(m) => Err(
                    EngineErrorView::Compute("Failed to update file "@ + resolved + ": "@ + m),
                ),
                Ok(new) => Ok(
                    (
                        if move_path is Some {
                            ChangeView::Move(new)
                        } else {
                            ChangeView::Write(new)
                        },
                        DeltaView { path: left_path(h), old: Some(s@), new: Some(new) },
                    ),
                ),
            },
            Target::File(Err(e)) => Err(
                EngineErrorView::Io {
                    context: "Failed to read file to update "@ + resolved,
                    source: e@,
                },
            ),
            Target::Missing(e) => Err(
                EngineErrorView::Io {
                    context: "Failed to read file to update "@ + resolved,
                    source: e@,
                },
            ),
            Target::Directory => Err(
                EngineErrorView::Io {
                    context: "Failed to read file to update "@ + resolved,
                    source: "path is a directory"@,
                },
            ),
        },
    }
}

fn io(what: &str, resolved: &str, source: String) -> (e: EngineError)
    ensures
        e@ == (EngineErrorView::Io { context: what@ + resolved@, source: source@ }),
{
    let mut context: String = what.to_owned();
    context.append(resolved);
    EngineError::Io { context, source }
}

fn is_directory(what: &str, resolved: &str) -> (e: EngineError)
    ensures
        e@ == directory_error(what@, resolved@),
{
    let mut context: String = what.to_owned();
    context.append(resolved);
    context.append(": path is a directory");
    EngineError::Io { context, source: "path is a directory".to_owned() }
}

/// Works out what a hunk does to its file.
pub fn plan_hunk(hunk: &Hunk, resolved: &str, target: Target, mode: UpdateMode, dry_run: bool) -> (r:
    Result<(Change, FileDelta), EngineError>)
    requires
        hunk_well_kept(hunk@),
    ensures
        match r {
            Ok(p) => hunk_change(hunk@, resolved@, target, mode, dry_run) == Ok::<
                (ChangeView, DeltaView),
                EngineErrorView,
            >((p.0@, p.1@)),
            Err(e) => hunk_change(hunk@, resolved@, target, mode, dry_run) == Err::<
                (ChangeView, DeltaView),
                EngineErrorView,
            >(e@),
        },
{
    match hunk {
        Hunk::AddFile { path, contents } => {
            if dry_run {
                if let Target::Directory = target {
                    return Err(is_directory("Cannot add file ", resolved));
                }
            }
            Ok(
                (
                    Change::Write(contents.clone()),
                    FileDelta { path: path.clone(), old: None, new: Some(contents.clone()) },
                ),
            )
        },
        Hunk::DeleteFile { path } => match target {
            Target::Missing(e) => Err(io("Failed to delete file ", resolved, e)),
            Target::Directory => Err(is_directory("Failed to delete file ", resolved)),
            Target::File(t) => {
                let before: Option<String> = match t {
                    Ok(s) => Some(s),
                    Err(_) => None,
                };
                Ok((Change::Remove, FileDelta { path: path.clone(), old: before, new: None }))
            },
        },
        Hunk::UpdateFile { path, move_path, chunks } => match target {
            Target::File(Ok(s)) => {
                proof {
                    assert forall|i: int| 0 <= i < chunks@.len() implies well_kept(
                        (#[trigger] chunks@[i])@,
                    ) by {
                        assert(chunk_views(chunks@)[i] == chunks@[i]@);
                    }
                }
                let applied: AppliedPatch = match derive_new_contents_from_chunks(
                    resolved,
                    s,
                    chunks.as_slice(),
                    mode,
                ) {
                    Ok(a) => a,
                    Err(m) => {
                        let mut message: String = "Failed to update file ".to_owned();
                        message.append(resolved);
                        message.append(": ");
                        message.append(m.as_str());
                        return Err(EngineError::Compute(message));
                    },
                };
                let change: Change = if move_path.is_some() {
                    Change::Move(applied.new_contents.clone())
                } else {
                    Change::Write(applied.new_contents.clone())
                };
                Ok(
                    (
                        change,
                        FileDelta {
                            path: hunk.path().to_owned(),
                            old: Some(applied.original_contents),
                            new: Some(applied.new_contents),
                        },
                    ),
                )
            },
            Target::File(Err(e)) => Err(io("Failed to read file to update ", resolved, e)),
            Target::Missing(e) => Err(io("Failed to read file to update ", resolved, e)),
            Target::Directory => Err(
                io(
                    "Failed to read file to update ",
                    resolved,
                    "path is a directory".to_owned(),
                ),
            ),
        },
    }
}

/// The outcome with one more file, listed by what happened to it.
pub open spec fn with_delta(o: ApplyView, h: HunkView, d: DeltaView) -> ApplyView {
    let more = ApplyView { deltas: o.deltas.push(d), ..o };
    match h {
        HunkView::AddFile { .. } => ApplyView { added: o.added.push(d.path), ..more },
        HunkView::DeleteFile { .. } => ApplyView { deleted: o.deleted.push(d.path), ..more },
        HunkView::UpdateFile { .. } => ApplyView { modified: o.modified.push(d.path), ..more },
    }
}

impl ApplyOutcome {
    /// An outcome of nothing yet.
    pub fn new() -> (o: ApplyOutcome)
        ensures
            o@ == (ApplyView {
                added: Seq::<Seq<char>>::empty(),
                modified: Seq::<Seq<char>>::empty(),
                deleted: Seq::<Seq<char>>::empty(),
                deltas: Seq::<DeltaView>::empty(),
            }),
    {
        let o: ApplyOutcome = ApplyOutcome {
            affected: AffectedPaths {
                added: Vec::new(),
                modified: Vec::new(),
                deleted: Vec::new(),
            },
            deltas: Vec::new(),
        };
        proof {
            assert(o@.added =~= Seq::<Seq<char>>::empty());
            assert(o@.modified =~= Seq::<Seq<char>>::empty());
            assert(o@.deleted =~= Seq::<Seq<char>>::empty());
            assert(o@.deltas =~= Seq::<DeltaView>::empty());
        }
        o
    }

    /// Adds what a hunk did.
    pub fn add(&mut self, hunk: &Hunk, delta: FileDelta)
        ensures
            final(self)@ == with_delta(old(self)@, hunk@, delta@),
    {
        let ghost before = self@;
        let ghost d = delta@;
        let path: String = delta.path.clone();
        match hunk {
            Hunk::AddFile { .. } => {
                self.affected.added.push(path);
            },
            Hunk::DeleteFile { .. } => {
                self.affected.deleted.push(path);
            },
            Hunk::UpdateFile { .. } => {
                self.affected.modified.push(path);
            },
        }
        self.deltas.push(delta);
        proof {
            assert(self@ =~= with_delta(before, hunk@, d));
        }
    }
}

} // verus!
