//! The sequencing of an upgrade chain. The caller performs each action that
//! the chain asks for (fetching an archive, applying it into a fresh staging
//! area, merging the staging area into the live tree) and reports how it
//! went; a hop's staged files are merged only after all of its archive has
//! been applied, and the first failure ends the chain.

use crate::catalog::VersionTransition;
use crate::tree::PatchError;
use vstd::prelude::*;

verus! {

/// Why an upgrade chain stopped.
pub enum DownloadAndPatchError {
    /// Reading or writing the live tree or the staging area failed.
    Io(String),
    /// The staging area could not be walked.
    WalkDir(String),
    /// The archive could not be fetched.
    Minreq(String),
    /// The archive could not be applied.
    PatchError(PatchError),
    /// The hop has no download URL.
    NoUpdateLink,
}

/// Where the chain stands within its current hop.
#[derive(PartialEq, Eq, Structural, Clone, Copy)]
pub enum ChainPhase {
    /// The current hop has not begun.
    Ready,
    /// The current hop was announced; its archive is to be fetched.
    Begun,
    /// The archive is being fetched.
    Fetching,
    /// The archive is being applied into a fresh staging area.
    Applying,
    /// The staging area is being merged into the live tree.
    Merging,
    /// Every hop was merged.
    Finished,
    /// A hop failed; nothing more is done.
    Failed,
}

/// What the caller is asked to do next.
pub enum ChainAction {
    /// Announce the hop at this index.
    Begin(usize),
    /// Fetch and decompress the archive at this URL.
    Fetch(String),
    /// Apply the fetched archive to the live tree into a fresh staging area.
    Apply,
    /// Move every staged file to the same path under the live tree.
    Merge,
    /// The hop at this index is merged.
    HopMerged(usize),
    /// Every hop was merged.
    Finished,
    /// The chain stops on this error; the live tree holds the merged hops.
    Failed(DownloadAndPatchError),
}

/// An upgrade chain over `hops`, at hop `hop`, of which the first `merged`
/// were merged.
pub struct PatchChain {
    pub hops: Vec<VersionTransition>,
    pub hop: usize,
    pub merged: usize,
    pub phase: ChainPhase,
}

/// What happened to a file move during a merge.
pub enum MoveOutcome {
    Moved,
    /// Source and destination lie on different storage devices.
    CrossesDevices,
    Failed(String),
}

/// What the merge does about one staged file after trying to move it.
pub enum MergeStep {
    Done,
    /// Copy the file instead; the staging area is discarded afterwards.
    CopyInstead,
    Failed(String),
}

/// A move that failed only because it crosses devices falls back to a copy,
/// which leaves the same content at the destination.
pub fn merge_fallback(outcome: MoveOutcome) -> (r: MergeStep)
    ensures
        outcome is Moved ==> r is Done,
        outcome is CrossesDevices ==> r is CopyInstead,
        outcome matches MoveOutcome::Failed(m) ==> r == MergeStep::Failed(m),
{
    match outcome {
        MoveOutcome::Moved => MergeStep::Done,
        MoveOutcome::CrossesDevices => MergeStep::CopyInstead,
        MoveOutcome::Failed(m) => MergeStep::Failed(m),
    }
}

impl PatchChain {
    /// A chain over `hops` that has done nothing yet.
    pub fn new(hops: Vec<VersionTransition>) -> (r: PatchChain)
        ensures
            r.hops == hops,
            r.wf(),
            r.hop == 0,
            r.phase == ChainPhase::Ready,
    {
        PatchChain { hops, hop: 0, merged: 0, phase: ChainPhase::Ready }
    }

    /// The hops before the current one, and no other, were merged.
    pub open spec fn wf(&self) -> bool {
        &&& self.hop <= self.hops@.len()
        &&& self.merged == self.hop
        &&& self.phase == ChainPhase::Finished ==> self.hop == self.hops@.len()
        &&& (self.phase != ChainPhase::Finished && self.phase != ChainPhase::Failed && self.phase != ChainPhase::Ready)
            ==> self.hop < self.hops@.len()
    }

    /// The chain has stopped.
    pub open spec fn is_over(&self) -> bool {
        self.phase == ChainPhase::Finished || self.phase == ChainPhase::Failed
    }

    /// Takes the outcome of the last action asked for (ignored before a hop
    /// begins) and says what to do next.
    pub fn next(&mut self, outcome: Result<(), DownloadAndPatchError>) -> (r: ChainAction)
        requires
            old(self).wf(),
            !old(self).is_over(),
        ensures
            final(self).wf(),
            final(self).hops == old(self).hops,
            final(self).merged >= old(self).merged,
            final(self).merged > old(self).merged ==> {
                &&& old(self).phase == ChainPhase::Merging
                &&& outcome is Ok
                &&& final(self).merged == old(self).merged + 1
            },
            old(self).phase != ChainPhase::Ready && outcome is Err ==> {
                &&& final(self).phase == ChainPhase::Failed
                &&& final(self).merged == old(self).merged
                &&& r == ChainAction::Failed(outcome->Err_0)
            },
            old(self).phase == ChainPhase::Ready ==> if old(self).hop == old(self).hops@.len() {
                r is Finished && final(self).phase == ChainPhase::Finished
            } else {
                r == ChainAction::Begin(old(self).hop) && final(self).phase == ChainPhase::Begun
            },
            old(self).phase == ChainPhase::Begun && outcome is Ok ==> match old(self).hops@[old(self).hop as int].update_link {
                Some(url) => r == ChainAction::Fetch(url) && final(self).phase == ChainPhase::Fetching,
                None => (r matches ChainAction::Failed(DownloadAndPatchError::NoUpdateLink)) && final(self).phase
                    == ChainPhase::Failed,
            },
            old(self).phase == ChainPhase::Fetching && outcome is Ok ==> r is Apply && final(self).phase
                == ChainPhase::Applying,
            old(self).phase == ChainPhase::Applying && outcome is Ok ==> r is Merge && final(self).phase
                == ChainPhase::Merging,
            old(self).phase == ChainPhase::Merging && outcome is Ok ==> {
                &&& r == ChainAction::HopMerged(old(self).hop)
                &&& final(self).hop == old(self).hop + 1
                &&& final(self).phase == ChainPhase::Ready
            },
            r is Merge ==> old(self).phase == ChainPhase::Applying && outcome is Ok,
    {
        let n = self.hops.len();
        if self.phase == ChainPhase::Ready {
            if self.hop == n {
                self.phase = ChainPhase::Finished;
                return ChainAction::Finished;
            }
            self.phase = ChainPhase::Begun;
            return ChainAction::Begin(self.hop);
        }
        match outcome {
            Err(e) => {
                self.phase = ChainPhase::Failed;
                ChainAction::Failed(e)
            },
            Ok(()) => {
                match self.phase {
                    ChainPhase::Begun => {
                        match &self.hops[self.hop].update_link {
                            Some(url) => {
                                self.phase = ChainPhase::Fetching;
                                ChainAction::Fetch(url.clone())
                            },
                            None => {
                                self.phase = ChainPhase::Failed;
                                ChainAction::Failed(DownloadAndPatchError::NoUpdateLink)
                            },
                        }
                    },
                    ChainPhase::Fetching => {
                        self.phase = ChainPhase::Applying;
                        ChainAction::Apply
                    },
                    ChainPhase::Applying => {
                        self.phase = ChainPhase::Merging;
                        ChainAction::Merge
                    },
                    _ => {
                        let done = self.hop;
                        self.hop = self.hop + 1;
                        self.merged = self.merged + 1;
                        self.phase = ChainPhase::Ready;
                        ChainAction::HopMerged(done)
                    },
                }
            },
        }
    }
}

} // verus!
