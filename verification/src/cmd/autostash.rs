//! A sync between the stashing of changes that are not committed and their return.

use crate::error::{error_view, ErrorView, EzError};
use vstd::prelude::*;
use vstd::string::*;

verus! {

/// The stages of a sync with its stash.
#[derive(Clone, Copy, Debug, PartialEq, Eq, Structural)]
pub enum StashStage {
    /// Changes that are not committed are stashed.
    Stash,
    Sync,
    /// What was stashed is put back.
    Unstash,
    Ended,
}

/// What came of a stage.
#[derive(Debug)]
pub enum StashEvent {
    /// Whether there was anything to stash.
    Stashed(bool),
    /// The error that ended the sync, if any.
    Synced(Option<EzError>),
    Restored,
    Failed(String),
}

/// The contents of a `StashedSync`.
#[verifier::ext_equal]
pub struct StashedSyncView {
    pub stage: StashStage,
    /// Whether there is a stash that has not been put back.
    pub stashed: bool,
    pub error: Option<ErrorView>,
    /// What is told where the stash could not be put back.
    pub warning: Option<Seq<char>>,
}

impl StashedSyncView {
    /// The sync after a stage. What does not belong to the stage changes nothing.
    pub open spec fn step(self, event: StashEvent) -> StashedSyncView {
        match (self.stage, event) {
            (StashStage::Stash, StashEvent::Stashed(any)) => StashedSyncView {
                stage: StashStage::Sync,
                stashed: any,
                ..self
            },
            (StashStage::Stash, StashEvent::Failed(t)) => StashedSyncView {
                stage: StashStage::Ended,
                error: Some(ErrorView::Other(t@)),
                ..self
            },
            (StashStage::Sync, StashEvent::Synced(error)) => StashedSyncView {
                stage: if self.stashed {
                    StashStage::Unstash
                } else {
                    StashStage::Ended
                },
                error: error_view(error),
                ..self
            },
            (StashStage::Unstash, StashEvent::Restored) => StashedSyncView {
                stage: StashStage::Ended,
                stashed: false,
                ..self
            },
            (StashStage::Unstash, StashEvent::Failed(t)) => StashedSyncView {
                stage: StashStage::Ended,
                warning: Some("Failed to pop autostash: "@ + t@),
                ..self
            },
            _ => self,
        }
    }
}

/// Whatever comes of the sync, what was stashed before it is put back, and the sync's own error,
/// if any, is what the command ends with.
pub proof fn law_stash_is_restored(v: StashedSyncView, error: Option<EzError>)
    requires
        v.stage is Sync,
        v.stashed,
    ensures
        ({
            let w = v.step(StashEvent::Synced(error));
            let e = w.step(StashEvent::Restored);
            &&& w.stage is Unstash
            &&& e.stage is Ended
            &&& !e.stashed
            &&& e.error == error_view(error)
        }),
{
}

/// A sync that ends with its stash still there tells that it could not be put back.
pub proof fn law_kept_stash_is_told(v: StashedSyncView, event: StashEvent)
    requires
        !(v.stage is Ended),
        v.stage is Stash ==> !v.stashed,
        v.step(event).stage is Ended,
        v.step(event).stashed,
    ensures
        v.step(event).warning is Some,
{
}

/// A sync and its stash.
#[derive(Debug)]
pub struct StashedSync {
    pub stage: StashStage,
    pub stashed: bool,
    pub error: Option<EzError>,
    pub warning: Option<String>,
}

impl View for StashedSync {
    type V = StashedSyncView;

    open spec fn view(&self) -> StashedSyncView {
        StashedSyncView {
            stage: self.stage,
            stashed: self.stashed,
            error: error_view(self.error),
            warning: crate::text::opt_view(self.warning),
        }
    }
}

impl StashedSync {
    /// A sync at its start, which stashes first if asked to.
    pub fn begin(autostash: bool) -> (r: StashedSync)
        ensures
            r@ == (StashedSyncView {
                stage: if autostash {
                    StashStage::Stash
                } else {
                    StashStage::Sync
                },
                stashed: false,
                error: None,
                warning: None,
            }),
    {
        StashedSync {
            stage: if autostash {
                StashStage::Stash
            } else {
                StashStage::Sync
            },
            stashed: false,
            error: None,
            warning: None,
        }
    }

    /// The sync after a stage.
    pub fn step(self, event: StashEvent) -> (r: StashedSync)
        ensures
            r@ == self@.step(event),
    {
        let mut s = self;
        match (s.stage, event) {
            (StashStage::Stash, StashEvent::Stashed(any)) => {
                s.stage = StashStage::Sync;
                s.stashed = any;
            },
            (StashStage::Stash, StashEvent::Failed(t)) => {
                s.stage = StashStage::Ended;
                s.error = Some(EzError::Other(t));
            },
            (StashStage::Sync, StashEvent::Synced(error)) => {
                s.stage = if s.stashed {
                    StashStage::Unstash
                } else {
                    StashStage::Ended
                };
                s.error = error;
            },
            (StashStage::Unstash, StashEvent::Restored) => {
                s.stage = StashStage::Ended;
                s.stashed = false;
            },
            (StashStage::Unstash, StashEvent::Failed(t)) => {
                s.stage = StashStage::Ended;
                s.warning = Some(String::from_str("Failed to pop autostash: ").concat(&t));
            },
            _ => {},
        }
        s
    }
}

/// A sync runs whether or not anything was stashed, but not where stashing failed; only what was
/// stashed is put back.
pub proof fn law_sync_follows_the_stash(v: StashedSyncView, any: bool, t: String, e: Option<EzError>)
    ensures
        v.stage is Stash ==> v.step(StashEvent::Stashed(any)).stage is Sync && v.step(
            StashEvent::Stashed(any),
        ).stashed == any,
        v.stage is Stash ==> v.step(StashEvent::Failed(t)).stage is Ended && v.step(
            StashEvent::Failed(t),
        ).error == Some(ErrorView::Other(t@)),
        v.stage is Sync && !v.stashed ==> v.step(StashEvent::Synced(e)).stage is Ended && v.step(
            StashEvent::Synced(e),
        ).error == error_view(e),
{
}

} // verus!
