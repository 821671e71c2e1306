//! Merging the pull requests of a stack one after the other.

use crate::cmd::merge::{target_views, MergeOutcome, MergeTarget};
use crate::cmd::merging::MergeResult;
use crate::error::{error_view, ErrorView, EzError};
use crate::github::MergePrOutcome;
use crate::stack::{StackState, StackView};
use crate::text::{opt_view, views};
use vstd::prelude::*;
use vstd::string::*;

verus! {

/// The contents of a `MergeOutcome`.
#[verifier::ext_equal]
pub struct OutcomeView {
    pub branch: Seq<char>,
    pub pr_number: u64,
    pub status: MergePrOutcome,
    pub restacked: nat,
    pub pushed: Seq<Seq<char>>,
    pub worktree: Option<Seq<char>>,
}

impl View for MergeOutcome {
    type V = OutcomeView;

    open spec fn view(&self) -> OutcomeView {
        OutcomeView {
            branch: self.branch@,
            pr_number: self.pr_number,
            status: self.status,
            restacked: self.restacked as nat,
            pushed: views(self.pushed@),
            worktree: opt_view(self.worktree),
        }
    }
}

/// The contents of a list of outcomes.
pub open spec fn outcome_views(s: Seq<MergeOutcome>) -> Seq<OutcomeView> {
    s.map_values(|o: MergeOutcome| o@)
}

/// The contents of a `MergeSeries`.
#[verifier::ext_equal]
pub struct SeriesView {
    pub state: StackView,
    pub targets: Seq<(Seq<char>, u64)>,
    pub outcomes: Seq<OutcomeView>,
    /// Whether nothing more is merged.
    pub ended: bool,
    pub error: Option<ErrorView>,
}

impl SeriesView {
    /// The series after the merge of its next target. A merge that failed, or that GitHub only
    /// queued, ends it: what stands above is not merged.
    pub open spec fn step(self, result: MergeResult, worktree: Option<Seq<char>>) -> SeriesView {
        if self.ended {
            self
        } else {
            let v = SeriesView { state: result.state@, ..self };
            match (error_view(result.error), result.status) {
                (Some(e), _) => SeriesView { ended: true, error: Some(e), ..v },
                (None, None) => SeriesView { ended: true, ..v },
                (None, Some(status)) => {
                    let target = self.targets[self.outcomes.len() as int];
                    SeriesView {
                        outcomes: self.outcomes.push(
                            OutcomeView {
                                branch: target.0,
                                pr_number: target.1,
                                status,
                                restacked: result.pushed@.len(),
                                pushed: views(result.pushed@),
                                worktree,
                            },
                        ),
                        ended: status == MergePrOutcome::Enqueued || self.outcomes.len() + 1
                            >= self.targets.len(),
                        ..v
                    }
                },
            }
        }
    }

    /// What holds throughout a series: the outcomes are those of the first targets, in order, and
    /// all of them but perhaps the last are merged.
    pub open spec fn wf(self) -> bool {
        &&& self.outcomes.len() <= self.targets.len()
        &&& !self.ended ==> self.outcomes.len() < self.targets.len() && self.error is None
        &&& forall|i: int|
            0 <= i < self.outcomes.len() ==> (#[trigger] self.outcomes[i]).branch
                == self.targets[i].0 && self.outcomes[i].pr_number == self.targets[i].1
        &&& forall|i: int|
            0 <= i < self.outcomes.len() && (i + 1 < self.outcomes.len() || !self.ended) ==> (
            #[trigger] self.outcomes[i]).status == MergePrOutcome::Merged
    }
}

/// Every merge keeps what holds throughout a series: targets are merged in order, and nothing is
/// merged above one that was only queued.
pub proof fn law_series_keeps_order(
    v: SeriesView,
    result: MergeResult,
    worktree: Option<Seq<char>>,
)
    requires
        v.wf(),
    ensures
        v.step(result, worktree).wf(),
        v.step(result, worktree).targets == v.targets,
{
}

/// After a merge that failed or was queued, nothing more is merged.
pub proof fn law_series_stops(v: SeriesView, result: MergeResult, worktree: Option<Seq<char>>)
    requires
        v.wf(),
        !v.ended,
        result.error is Some || result.status == Some(MergePrOutcome::Enqueued),
    ensures
        v.step(result, worktree).ended,
        v.step(result, worktree).error == error_view(result.error),
{
}

/// A series that ends without an error and without a queued merge has merged all its targets.
pub proof fn law_series_merges_all(v: SeriesView, result: MergeResult, worktree: Option<Seq<char>>)
    requires
        v.wf(),
        !v.ended,
        result.error is None,
        result.status == Some(MergePrOutcome::Merged),
        v.step(result, worktree).ended,
    ensures
        v.step(result, worktree).outcomes.len() == v.targets.len(),
        v.step(result, worktree).error is None,
{
}

#[derive(Debug)]
struct SeriesData {
    state: StackState,
    targets: Vec<MergeTarget>,
    outcomes: Vec<MergeOutcome>,
    ended: bool,
    error: Option<EzError>,
}

impl View for SeriesData {
    type V = SeriesView;

    closed spec fn view(&self) -> SeriesView {
        SeriesView {
            state: self.state@,
            targets: target_views(self.targets@),
            outcomes: outcome_views(self.outcomes@),
            ended: self.ended,
            error: error_view(self.error),
        }
    }
}

/// A series of merges in progress.
#[derive(Debug)]
pub struct MergeSeries {
    data: SeriesData,
}

impl View for MergeSeries {
    type V = SeriesView;

    closed spec fn view(&self) -> SeriesView {
        self.data@
    }
}

impl MergeSeries {
    #[verifier::type_invariant]
    spec fn in_order(self) -> bool {
        self.data@.wf()
    }

    /// Starts to merge the targets, from the bottom up.
    pub fn begin(state: &StackState, targets: Vec<MergeTarget>) -> (r: MergeSeries)
        ensures
            r@ == (SeriesView {
                state: state@,
                targets: target_views(targets@),
                outcomes: Seq::empty(),
                ended: targets@.len() == 0,
                error: None,
            }),
    {
        let ended: bool = targets.len() == 0;
        let data = SeriesData {
            state: state.copy(),
            targets,
            outcomes: Vec::new(),
            ended,
            error: None,
        };
        assert(outcome_views(data.outcomes@) =~= Seq::<OutcomeView>::empty());
        MergeSeries { data }
    }

    /// What is merged next, if anything.
    pub fn next_target(&self) -> (r: Option<&MergeTarget>)
        ensures
            match r {
                Some(t) => !self@.ended && (t.branch@, t.pr_number) == self@.targets[
                    self@.outcomes.len() as int
                ],
                None => self@.ended,
            },
    {
        proof {
            use_type_invariant(self);
            assert(outcome_views(self.data.outcomes@).len() == self.data.outcomes.len());
        }
        if self.data.ended {
            None
        } else {
            Some(&self.data.targets[self.data.outcomes.len()])
        }
    }

    /// The series after the merge of its next target, whose worktree is given.
    pub fn step(self, result: MergeResult, worktree: Option<String>) -> (r: MergeSeries)
        ensures
            r@ == self@.step(result, opt_view(worktree)),
    {
        proof {
            use_type_invariant(&self);
            law_series_keeps_order(self@, result, opt_view(worktree));
            assert(outcome_views(self.data.outcomes@).len() == self.data.outcomes.len());
        }
        let ghost want = self@.step(result, opt_view(worktree));
        let mut d = self.data;
        if d.ended {
            return MergeSeries { data: d };
        }
        d.state = result.state;
        match (result.error, result.status) {
            (Some(e), _) => {
                d.ended = true;
                d.error = Some(e);
            },
            (None, None) => {
                d.ended = true;
            },
            (None, Some(status)) => {
                let ghost held = outcome_views(d.outcomes@);
                let at: usize = d.outcomes.len();
                let target: &MergeTarget = &d.targets[at];
                let outcome = MergeOutcome {
                    branch: target.branch.clone(),
                    pr_number: target.pr_number,
                    status,
                    restacked: result.pushed.len(),
                    pushed: result.pushed,
                    worktree,
                };
                let ghost o = outcome@;
                d.outcomes.push(outcome);
                assert(outcome_views(d.outcomes@) =~= held.push(o));
                let queued: bool = match status {
                    MergePrOutcome::Enqueued => true,
                    MergePrOutcome::Merged => false,
                };
                d.ended = queued || d.outcomes.len() >= d.targets.len();
            },
        }
        assert(d@ =~= want);
        MergeSeries { data: d }
    }

    /// The stack so far.
    pub fn state(&self) -> (r: &StackState)
        ensures
            r@ == self@.state,
    {
        &self.data.state
    }

    /// The outcomes so far.
    pub fn outcomes(&self) -> (r: &Vec<MergeOutcome>)
        ensures
            outcome_views(r@) == self@.outcomes,
    {
        &self.data.outcomes
    }

    /// The error that ended the series, if any.
    pub fn finish(self) -> (r: Option<EzError>)
        ensures
            error_view(r) == self@.error,
    {
        self.data.error
    }
}

/// Each merge is told with its own branch and pull request, and the branches pushed after it; the
/// next begins with the record as it left it.
pub proof fn law_series_tells_each_merge(
    v: SeriesView,
    result: MergeResult,
    worktree: Option<Seq<char>>,
)
    requires
        v.wf(),
        !v.ended,
        result.error is None,
        result.status is Some,
    ensures
        ({
            let w = v.step(result, worktree);
            let target = v.targets[v.outcomes.len() as int];
            &&& w.state == result.state@
            &&& w.outcomes.len() == v.outcomes.len() + 1
            &&& w.outcomes.drop_last() == v.outcomes
            &&& w.outcomes.last().branch == target.0
            &&& w.outcomes.last().pr_number == target.1
            &&& w.outcomes.last().status == result.status->0
            &&& w.outcomes.last().pushed == views(result.pushed@)
            &&& w.outcomes.last().restacked == result.pushed@.len()
            &&& w.outcomes.last().worktree == worktree
            &&& result.status == Some(MergePrOutcome::Merged) && v.outcomes.len() + 1
                < v.targets.len() ==> !w.ended
        }),
{
    assert(v.step(result, worktree).outcomes.drop_last() =~= v.outcomes);
}

} // verus!
