//! A patch on its way: hunk after hunk, each against what is found where it goes.

use vstd::prelude::*;

use crate::apply_patch_engine::engine::{
    hunk_change, hunk_well_kept, hunks_to_apply, plan_hunk, read_from, source_path, start_patch,
    with_delta, ApplyOutcome, ApplyView, Change, EngineError, EngineErrorView, Target,
};
use crate::apply_patch_engine::file_update::UpdateMode;
use crate::apply_patch_engine::parser::{hunk_views, left_path, Hunk, HunkView};
use crate::bounds::{parts, path_within_workspace, within, Part};

verus! {

/// Refuses a path that leads out of the workspace.
pub fn check_inside(path: &str, abs: &[Part], workspace: &[Part]) -> (r: Result<(), EngineError>)
    ensures
        if within(parts(abs@), parts(workspace@)) {
            r is Ok
        } else {
            r matches Err(e) && e@ == (EngineErrorView::PathOutsideWorkspace { path: path@ })
        },
{
    if path_within_workspace(abs, workspace) {
        Ok(())
    } else {
        Err(EngineError::PathOutsideWorkspace { path: path.to_owned() })
    }
}

/// A patch on its way.
pub struct PatchRun {
    hunks: Vec<Hunk>,
    /// How many hunks are done.
    done: usize,
    outcome: ApplyOutcome,
    mode: UpdateMode,
    dry_run: bool,
}

/// How far a patch is.
#[verifier::ext_equal]
pub struct RunView {
    pub hunks: Seq<HunkView>,
    pub done: int,
    pub outcome: ApplyView,
    pub mode: UpdateMode,
    pub dry_run: bool,
}

impl View for PatchRun {
    type V = RunView;

    closed spec fn view(&self) -> RunView {
        RunView {
            hunks: hunk_views(self.hunks@),
            done: self.done as int,
            outcome: self.outcome@,
            mode: self.mode,
            dry_run: self.dry_run,
        }
    }
}

/// The outcome of no hunk.
pub open spec fn no_outcome() -> ApplyView {
    ApplyView { added: Seq::empty(), modified: Seq::empty(), deleted: Seq::empty(), deltas: Seq::empty() }
}

impl PatchRun {
    #[verifier::type_invariant]
    spec fn wf(self) -> bool {
        &&& self.done <= self.hunks@.len()
        &&& forall|i: int| 0 <= i < self.hunks@.len() ==> hunk_well_kept((#[trigger] self.hunks@[i])@)
    }

    /// Begins to apply a patch, or to try it out.
    pub fn begin(patch: &str, mode: UpdateMode, dry_run: bool) -> (r: Result<PatchRun, EngineError>)
        ensures
            match hunks_to_apply(patch@) {
                Ok(h) => r matches Ok(run) && run@ == (RunView {
                    hunks: h,
                    done: 0,
                    outcome: no_outcome(),
                    mode,
                    dry_run,
                }),
                Err(e) => r matches Err(f) && f@ == e,
            },
    {
        match start_patch(patch) {
            Ok(hunks) => Ok(PatchRun { hunks, done: 0, outcome: ApplyOutcome::new(), mode, dry_run }),
            Err(e) => Err(e),
        }
    }

    /// The path whose file the next hunk reads; nothing when all hunks are done.
    pub fn reads(&self) -> (r: Option<&str>)
        ensures
            match r {
                Some(p) => self@.done < self@.hunks.len() && p@ == read_from(
                    self@.hunks[self@.done],
                ),
                None => self@.done == self@.hunks.len(),
            },
    {
        proof {
            use_type_invariant(self);
        }
        if self.done < self.hunks.len() {
            Some(source_path(&self.hunks[self.done]))
        } else {
            None
        }
    }

    /// The path at which the next hunk leaves its file; nothing when all hunks are done.
    pub fn leaves(&self) -> (r: Option<&str>)
        ensures
            match r {
                Some(p) => self@.done < self@.hunks.len() && p@ == left_path(
                    self@.hunks[self@.done],
                ),
                None => self@.done == self@.hunks.len(),
            },
    {
        proof {
            use_type_invariant(self);
        }
        if self.done < self.hunks.len() {
            Some(self.hunks[self.done].path())
        } else {
            None
        }
    }

    /// Takes what is found where the next hunk goes; gives what is done to the file, or
    /// why the patch fails there.
    pub fn step(&mut self, resolved: &str, target: Target) -> (r: Result<Change, EngineError>)
        requires
            old(self)@.done < old(self)@.hunks.len(),
        ensures
            match hunk_change(
                old(self)@.hunks[old(self)@.done],
                resolved@,
                target,
                old(self)@.mode,
                old(self)@.dry_run,
            ) {
                Ok(p) => r matches Ok(c) && c@ == p.0 && final(self)@ == (RunView {
                    done: old(self)@.done + 1,
                    outcome: with_delta(
                        old(self)@.outcome,
                        old(self)@.hunks[old(self)@.done],
                        p.1,
                    ),
                    ..old(self)@
                }),
                Err(e) => r matches Err(f) && f@ == e && final(self)@ == old(self)@,
            },
    {
        proof {
            use_type_invariant(&*self);
            assert(self.hunks@[self.done as int]@ == self@.hunks[self@.done]);
        }
        let total: usize = self.hunks.len();
        proof {
            assert(self.done < total);
        }
        match plan_hunk(&self.hunks[self.done], resolved, target, self.mode, self.dry_run) {
            Ok((change, delta)) => {
                let mut outcome: ApplyOutcome = ApplyOutcome::new();
                std::mem::swap(&mut outcome, &mut self.outcome);
                outcome.add(&self.hunks[self.done], delta);
                self.outcome = outcome;
                self.done = self.done + 1;
                Ok(change)
            },
            Err(e) => Err(e),
        }
    }

    /// What the patch did, or would do, so far.
    pub fn finish(self) -> (o: ApplyOutcome)
        ensures
            o@ == self@.outcome,
    {
        self.outcome
    }
}

/// What a patch amounts to when its hunks meet, one after the other, what is found
/// where they go. The first hunk that fails ends it.
pub open spec fn outcome_of(
    hunks: Seq<HunkView>,
    found: Seq<(Seq<char>, Target)>,
    mode: UpdateMode,
    dry_run: bool,
) -> Result<ApplyView, EngineErrorView>
    decreases found.len(),
{
    if found.len() == 0 {
        Ok(no_outcome())
    } else {
        let h = hunks[found.len() - 1];
        match outcome_of(hunks, found.drop_last(), mode, dry_run) {
            Err(e) => Err(e),
            Ok(o) => match hunk_change(h, found.last().0, found.last().1, mode, dry_run) {
                Err(e) => Err(e),
                Ok(p) => Ok(with_delta(o, h, p.1)),
            },
        }
    }
}

/// A patch that is applied accounts for every hunk: one delta each, in order, under the
/// path where the hunk left its file, and each file is listed as added, modified or
/// deleted.
pub proof fn every_hunk_is_accounted_for(
    hunks: Seq<HunkView>,
    found: Seq<(Seq<char>, Target)>,
    mode: UpdateMode,
    dry_run: bool,
)
    requires
        found.len() <= hunks.len(),
        outcome_of(hunks, found, mode, dry_run) is Ok,
    ensures
        ({
            let o = outcome_of(hunks, found, mode, dry_run)->Ok_0;
            &&& o.deltas.len() == found.len()
            &&& o.added.len() + o.modified.len() + o.deleted.len() == found.len()
            &&& forall|i: int|
                0 <= i < found.len() ==> (#[trigger] o.deltas[i]).path == left_path(hunks[i])
        }),
    decreases found.len(),
{
    if found.len() > 0 {
        let f = found.drop_last();
        every_hunk_is_accounted_for(hunks, f, mode, dry_run);
        let o = outcome_of(hunks, found, mode, dry_run)->Ok_0;
        let before = outcome_of(hunks, f, mode, dry_run)->Ok_0;
        assert forall|i: int| 0 <= i < found.len() implies (#[trigger] o.deltas[i]).path
            == left_path(hunks[i]) by {
            if i < f.len() {
                assert(o.deltas[i] == before.deltas[i]);
            }
        }
    }
}

/// A dry run sees what applying the patch would see, on the same files, unless it adds a
/// file where there is a directory.
pub proof fn dry_run_foretells_the_patch(
    hunks: Seq<HunkView>,
    found: Seq<(Seq<char>, Target)>,
    mode: UpdateMode,
)
    requires
        found.len() <= hunks.len(),
        forall|i: int|
            0 <= i < found.len() ==> !(hunks[i] is AddFile && (#[trigger] found[i]).1 is Directory),
    ensures
        outcome_of(hunks, found, mode, true) == outcome_of(hunks, found, mode, false),
    decreases found.len(),
{
    if found.len() > 0 {
        let f = found.drop_last();
        assert forall|i: int| 0 <= i < f.len() implies !(hunks[i] is AddFile && (
        #[trigger] f[i]).1 is Directory) by {
            assert(f[i] == found[i]);
        }
        dry_run_foretells_the_patch(hunks, f, mode);
        assert(!(hunks[found.len() - 1] is AddFile && found[found.len() - 1].1 is Directory));
    }
}

} // verus!
