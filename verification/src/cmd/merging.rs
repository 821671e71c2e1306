//! Carrying out a merge of one branch, or of a whole native stack at once: what was merged is
//! forgotten and cleaned up before anything else is restacked.

use crate::cmd::merge::{
    merged_out, outer_children, outer_moved, reparent_external_children_after_native_merge,
    target_names, target_views, MergeTarget,
};
use crate::cmd::restack::{failed_names, left_behind, RestackReport};
use crate::cmd::sync::{
    path_views, update_reparented_pr_bases, update_views, updates_for, PrBaseUpdate, UpdateView,
};
use crate::error::{error_view, ErrorView, EzError};
use crate::github::MergePrOutcome;
use crate::name_map::NameMap;
use crate::names::{lemma_ranked, ranked};
use crate::stack::{Forest, StackState, StackView};
use crate::text::{joined, views};
use vstd::prelude::*;
use vstd::string::*;

verus! {

/// What a merge is waiting for.
#[derive(Clone, Copy, Debug, PartialEq, Eq, Structural)]
pub enum MergePhase {
    /// GitHub's answer to the request to merge.
    Merge,
    /// The bases of pull requests being brought in line, as far as possible.
    Publish,
    /// The saving of the stack without what was merged.
    Save,
    /// The process leaving a worktree that is to be removed.
    MoveOut,
    /// The removal of a merged branch's worktree.
    RemoveWorktree,
    /// Whether a merged branch is still there, and checked out.
    Look,
    /// The switch to the trunk.
    Checkout,
    /// The deletion of a merged branch.
    DeleteBranch,
    /// The deletion of a merged branch on the remote.
    DeleteRemote,
    /// The latest from the remote.
    Fetch,
    /// The trunk being brought up to date.
    UpdateTrunk,
    /// The rest of the stack being restacked.
    Restack,
    /// A restacked branch being pushed.
    Push,
    /// The saving of the restacked stack.
    SaveAgain,
    /// Nothing.
    Finished,
    /// Nothing: something failed.
    Failed,
}

/// The answer to what a merge waits for.
#[derive(Debug)]
pub enum MergeReply {
    Merged(MergePrOutcome),
    Done,
    Failed(String),
    Branch { there: bool, current: bool },
    /// The restacked stack, and what the restack did.
    Restacked { state: StackState, report: RestackReport },
}

/// The contents of a `Merging`.
#[verifier::ext_equal]
pub struct MergingView {
    pub state: StackView,
    pub targets: Seq<(Seq<char>, u64)>,
    /// The worktrees of branches.
    pub worktrees: Map<Seq<char>, Seq<char>>,
    /// Whether the process works inside a worktree that is to be removed.
    pub inside: bool,
    pub phase: MergePhase,
    /// The target being cleaned up, or the branch being pushed.
    pub at: int,
    pub status: Option<MergePrOutcome>,
    pub updates: Seq<UpdateView>,
    /// The branches that the restack moved.
    pub restacked: Seq<Seq<char>>,
    /// The error that tells of branches left behind.
    pub behind: Option<ErrorView>,
    pub error: Option<ErrorView>,
}

impl MergingView {
    pub open spec fn to(self, phase: MergePhase) -> MergingView {
        MergingView { phase: phase, ..self }
    }

    pub open spec fn end(self, e: ErrorView) -> MergingView {
        MergingView { phase: MergePhase::Failed, error: Some(e), ..self }
    }

    /// Forgets what was merged; what stood on it stands on the trunk.
    pub open spec fn record(self) -> MergingView {
        let m = self.state.branches;
        let gone = target_names(self.targets);
        MergingView {
            state: self.state.with_branches(merged_out(m, gone, self.state.trunk)),
            updates: updates_for(
                self.state.with_branches(outer_moved(m, gone, self.state.trunk)),
                ranked(outer_children(m, gone)),
            ),
            phase: MergePhase::Publish,
            ..self
        }
    }

    /// Goes on to clean up target `i`, or past the last one.
    pub open spec fn clean(self, i: int) -> MergingView {
        MergingView {
            at: i,
            phase: if i >= self.targets.len() {
                MergePhase::Fetch
            } else if self.worktrees.contains_key(self.targets[i].0) {
                MergePhase::RemoveWorktree
            } else {
                MergePhase::Look
            },
            ..self
        }
    }

    /// Goes on to push branch `i`, or past the last one.
    pub open spec fn push(self, i: int) -> MergingView {
        MergingView {
            at: i,
            phase: if i < self.restacked.len() {
                MergePhase::Push
            } else {
                MergePhase::SaveAgain
            },
            ..self
        }
    }

    /// Ends with the branches left behind, if any.
    pub open spec fn close(self) -> MergingView {
        let v = MergingView { behind: None, ..self };
        match self.behind {
            Some(e) => v.end(e),
            None => v.to(MergePhase::Finished),
        }
    }

    /// The merge after a reply. A reply that it does not wait for changes nothing.
    pub open spec fn step(self, reply: MergeReply) -> MergingView {
        match (self.phase, reply) {
            (MergePhase::Merge, MergeReply::Merged(status)) => {
                let v = MergingView { status: Some(status), ..self };
                match status {
                    MergePrOutcome::Merged => v.record(),
                    MergePrOutcome::Enqueued => v.to(MergePhase::Finished),
                }
            },
            (MergePhase::Publish, MergeReply::Done) => self.to(MergePhase::Save),
            (MergePhase::Publish, MergeReply::Failed(_)) => self.to(MergePhase::Save),
            (MergePhase::Save, MergeReply::Done) => if self.inside {
                self.to(MergePhase::MoveOut)
            } else {
                self.clean(0)
            },
            (MergePhase::MoveOut, MergeReply::Done) => self.clean(0),
            (MergePhase::RemoveWorktree, MergeReply::Done) => self.to(MergePhase::Look),
            (MergePhase::Look, MergeReply::Branch { there, current }) => self.to(
                if !there {
                    MergePhase::DeleteRemote
                } else if current {
                    MergePhase::Checkout
                } else {
                    MergePhase::DeleteBranch
                },
            ),
            (MergePhase::Checkout, MergeReply::Done) => self.to(MergePhase::DeleteBranch),
            (MergePhase::DeleteBranch, MergeReply::Done) => self.to(MergePhase::DeleteRemote),
            (MergePhase::DeleteBranch, MergeReply::Failed(_)) => self.to(MergePhase::DeleteRemote),
            (MergePhase::DeleteRemote, MergeReply::Done) => self.clean(self.at + 1),
            (MergePhase::DeleteRemote, MergeReply::Failed(_)) => self.clean(self.at + 1),
            (MergePhase::Fetch, MergeReply::Done) => self.to(MergePhase::UpdateTrunk),
            (MergePhase::UpdateTrunk, MergeReply::Done) => self.to(MergePhase::Restack),
            (MergePhase::UpdateTrunk, MergeReply::Failed(_)) => self.to(MergePhase::Restack),
            (MergePhase::Restack, MergeReply::Restacked { state, report }) => MergingView {
                state: state@,
                restacked: views(report.restacked_branches@),
                behind: left_behind(report),
                ..self
            }.push(0),
            (MergePhase::Push, MergeReply::Done) => self.push(self.at + 1),
            (MergePhase::SaveAgain, MergeReply::Done) => self.close(),
            (MergePhase::Merge, MergeReply::Failed(t))
            | (MergePhase::Save, MergeReply::Failed(t))
            | (MergePhase::MoveOut, MergeReply::Failed(t))
            | (MergePhase::RemoveWorktree, MergeReply::Failed(t))
            | (MergePhase::Look, MergeReply::Failed(t))
            | (MergePhase::Checkout, MergeReply::Failed(t))
            | (MergePhase::Fetch, MergeReply::Failed(t))
            | (MergePhase::Push, MergeReply::Failed(t))
            | (MergePhase::SaveAgain, MergeReply::Failed(t)) => self.end(ErrorView::Other(t@)),
            _ => self,
        }
    }

    /// Whether a target is being cleaned up.
    pub open spec fn cleaning(self) -> bool {
        self.phase is RemoveWorktree || self.phase is Look || self.phase is Checkout
            || self.phase is DeleteBranch || self.phase is DeleteRemote
    }

    /// What holds throughout a merge.
    pub open spec fn wf(self) -> bool {
        &&& 0 <= self.at
        &&& self.cleaning() ==> self.at < self.targets.len()
        &&& self.phase is RemoveWorktree ==> self.worktrees.contains_key(self.targets[self.at].0)
        &&& self.phase is Push ==> self.at < self.restacked.len()
    }
}

/// Every reply keeps what holds throughout a merge.
pub proof fn law_merge_keeps_order(v: MergingView, reply: MergeReply)
    requires
        v.wf(),
    ensures
        v.step(reply).wf(),
{
}

/// A merge that GitHub only queued changes nothing: the record stays, and nothing more is asked
/// for.
pub proof fn law_enqueued_merge_changes_nothing(v: MergingView)
    requires
        v.phase is Merge,
    ensures
        ({
            let w = v.step(MergeReply::Merged(MergePrOutcome::Enqueued));
            w.state == v.state && w.phase is Finished && w.error == v.error
        }),
{
}

/// A merge that GitHub refused changes nothing.
pub proof fn law_refused_merge_changes_nothing(v: MergingView, text: String)
    requires
        v.phase is Merge,
    ensures
        v.step(MergeReply::Failed(text)).state == v.state,
        v.step(MergeReply::Failed(text)).phase is Failed,
{
}

/// Nothing is fetched or restacked before every target is cleaned up, and nothing is cleaned up
/// before the stack without the targets is saved.
pub proof fn law_cleanup_comes_between(v: MergingView, reply: MergeReply)
    requires
        v.wf(),
        v.step(reply).phase != v.phase || v.step(reply).at != v.at,
    ensures
        v.step(reply).phase is Fetch ==> (v.phase is DeleteRemote && v.at + 1 >= v.targets.len())
            || (v.targets.len() == 0 && (v.phase is Save || v.phase is MoveOut)),
        v.step(reply).cleaning() ==> v.cleaning() || ((v.phase is Save || v.phase is MoveOut)
            && reply is Done),
        v.step(reply).phase is MoveOut ==> v.phase is Save && reply is Done,
{
}

impl MergingView {
    /// The merge after `n` things that it waited for were done.
    pub open spec fn after_done(self, n: nat) -> MergingView
        decreases n,
    {
        if n == 0 {
            self
        } else {
            self.after_done((n - 1) as nat).step(MergeReply::Done)
        }
    }
}

/// After its restack a merge pushes each branch that moved and saves the stack. Only afterwards
/// do branches left behind end it, with the error that counts and names them; without any it
/// ends well.
pub proof fn law_merge_saves_before_it_fails(
    v: MergingView,
    state: StackState,
    report: RestackReport,
)
    requires
        v.phase is Restack,
        v.error is None,
    ensures
        ({
            let w = v.step(MergeReply::Restacked { state, report });
            let n = report.restacked_branches@.len();
            let e = w.after_done(n + 1);
            &&& w.after_done(n).phase is SaveAgain
            &&& w.after_done(n).state == state@
            &&& e.state == state@
            &&& if report.failures@.len() > 0 {
                e.phase is Failed && e.error == Some(
                    ErrorView::RestackIncomplete {
                        count: report.failures@.len(),
                        branches: joined(failed_names(report.failures@), ", "@),
                    },
                )
            } else {
                e.phase is Finished && e.error is None
            }
        }),
{
    let w = v.step(MergeReply::Restacked { state, report });
    let n = report.restacked_branches@.len();
    lemma_pushes(w, n);
    assert(w.after_done(n + 1) == w.after_done(n).step(MergeReply::Done));
}

/// So many pushes bring a merge to the branch after them.
proof fn lemma_pushes(w: MergingView, n: nat)
    requires
        w == w.push(0),
        n <= w.restacked.len(),
    ensures
        w.after_done(n) == w.push(n as int),
    decreases n,
{
    if n > 0 {
        lemma_pushes(w, (n - 1) as nat);
    }
}

#[derive(Debug)]
struct MergingData {
    state: StackState,
    targets: Vec<MergeTarget>,
    worktrees: NameMap<String>,
    inside: bool,
    phase: MergePhase,
    at: usize,
    status: Option<MergePrOutcome>,
    updates: Vec<PrBaseUpdate>,
    restacked: Vec<String>,
    behind: Option<EzError>,
    error: Option<EzError>,
}

impl View for MergingData {
    type V = MergingView;

    closed spec fn view(&self) -> MergingView {
        MergingView {
            state: self.state@,
            targets: target_views(self.targets@),
            worktrees: path_views(self.worktrees@),
            inside: self.inside,
            phase: self.phase,
            at: self.at as int,
            status: self.status,
            updates: update_views(self.updates@),
            restacked: views(self.restacked@),
            behind: error_view(self.behind),
            error: error_view(self.error),
        }
    }
}

/// Removes every branch of `names`.
fn remove_all(state: &mut StackState, names: &Vec<String>)
    ensures
        final(state)@ == old(state)@.with_branches(final(state)@.branches),
        forall|k: Seq<char>| #[trigger]
            final(state)@.branches.contains_key(k) <==> old(state)@.branches.contains_key(k)
                && !views(names@).contains(k),
        forall|k: Seq<char>| #[trigger]
            final(state)@.branches.contains_key(k) ==> final(state)@.branches[k] == old(
                state,
            )@.branches[k],
{
    let ghost before = state@;
    let ghost all = views(names@);
    let mut i: usize = 0;
    assert(before =~= before.with_branches(before.branches));
    while i < names.len()
        invariant
            i <= names.len(),
            all == views(names@),
            state@ == before.with_branches(state@.branches),
            forall|k: Seq<char>| #[trigger]
                state@.branches.contains_key(k) <==> before.branches.contains_key(k) && !all.take(
                    i as int,
                ).contains(k),
            forall|k: Seq<char>| #[trigger]
                state@.branches.contains_key(k) ==> state@.branches[k] == before.branches[k],
        decreases names.len() - i,
    {
        let ghost held = state@.branches;
        let ghost name = all[i as int];
        assert(name == names@[i as int]@);
        assert(all.take(i + 1) =~= all.take(i as int).push(name));
        state.remove_branch(&names[i]);
        proof {
            assert forall|k: Seq<char>| #[trigger]
                state@.branches.contains_key(k) <==> before.branches.contains_key(k) && !all.take(
                    i + 1,
                ).contains(k) by {
                vstd::seq_lib::lemma_seq_contains_after_push(all.take(i as int), name, k);
                assert(held.contains_key(k) <==> before.branches.contains_key(k) && !all.take(
                    i as int,
                ).contains(k));
            }
            assert forall|k: Seq<char>| #[trigger] state@.branches.contains_key(k) implies (
            state@.branches[k] == before.branches[k]) by {
                assert(held.contains_key(k));
            }
        }
        i += 1;
    }
    assert(all.take(names.len() as int) =~= all);
}

impl MergingData {
    fn end(&mut self, e: EzError)
        ensures
            final(self)@ == old(self)@.end(e@),
    {
        self.phase = MergePhase::Failed;
        self.error = Some(e);
    }

    fn record(&mut self)
        ensures
            final(self)@ == old(self)@.record(),
    {
        let ghost v = self@;
        let ghost m = v.state.branches;
        let mut names: Vec<String> = Vec::new();
        let mut i: usize = 0;
        while i < self.targets.len()
            invariant
                i <= self.targets.len(),
                names.len() == i,
                forall|j: int| 0 <= j < i ==> (#[trigger] names@[j])@ == self.targets@[j].branch@,
            decreases self.targets.len() - i,
        {
            names.push(self.targets[i].branch.clone());
            i += 1;
        }
        let ghost gone = target_names(v.targets);
        assert(views(names@) =~= gone);
        let moved: Vec<String> = reparent_external_children_after_native_merge(
            &mut self.state,
            &names,
        );
        proof {
            lemma_ranked(views(moved@), outer_children(m, gone));
        }
        self.updates = update_reparented_pr_bases(&self.state, &moved);
        let ghost middle = self.state@;
        remove_all(&mut self.state, &names);
        proof {
            let want = merged_out(m, gone, v.state.trunk);
            assert forall|k: Seq<char>| self.state@.branches.contains_key(k) == want.contains_key(
                k,
            ) && (want.contains_key(k) ==> self.state@.branches[k] == want[k]) by {
                assert(middle.branches.contains_key(k) == m.contains_key(k));
                assert(self.state@.branches.contains_key(k) <==> middle.branches.contains_key(k)
                    && !gone.contains(k));
                if self.state@.branches.contains_key(k) {
                    assert(self.state@.branches[k] == middle.branches[k]);
                    assert(middle.branches[k] == outer_moved(m, gone, v.state.trunk)[k]);
                    assert(outer_children(m, gone).contains(k) == gone.contains(m[k].parent));
                }
            }
            assert(self.state@.branches =~= want);
        }
        self.phase = MergePhase::Publish;
    }

    fn clean(&mut self, i: usize)
        ensures
            final(self)@ == old(self)@.clean(i as int),
    {
        self.at = i;
        if i >= self.targets.len() {
            self.phase = MergePhase::Fetch;
            return;
        }
        assert(self@.targets[i as int].0 == self.targets@[i as int].branch@);
        self.phase = if self.worktrees.contains_key(&self.targets[i].branch) {
            MergePhase::RemoveWorktree
        } else {
            MergePhase::Look
        };
    }

    fn push(&mut self, i: usize)
        ensures
            final(self)@ == old(self)@.push(i as int),
    {
        self.at = i;
        assert(views(self.restacked@).len() == self.restacked.len());
        self.phase = if i < self.restacked.len() {
            MergePhase::Push
        } else {
            MergePhase::SaveAgain
        };
    }

    fn close(&mut self)
        ensures
            final(self)@ == old(self)@.close(),
    {
        let mut behind: Option<EzError> = None;
        std::mem::swap(&mut behind, &mut self.behind);
        match behind {
            Some(e) => self.end(e),
            None => {
                self.phase = MergePhase::Finished;
            },
        }
    }
}

impl MergingData {
    fn step_merge(&mut self, reply: MergeReply)
        requires
            old(self)@.wf(),
            !old(self)@.cleaning(),
        ensures
            final(self)@ == old(self)@.step(reply),
    {
        match (self.phase, reply) {
            (MergePhase::Merge, MergeReply::Merged(status)) => {
                self.status = Some(status);
                match status {
                    MergePrOutcome::Merged => self.record(),
                    MergePrOutcome::Enqueued => {
                        self.phase = MergePhase::Finished;
                    },
                }
            },
            (MergePhase::Publish, MergeReply::Done) => {
                self.phase = MergePhase::Save;
            },
            (MergePhase::Publish, MergeReply::Failed(_)) => {
                self.phase = MergePhase::Save;
            },
            (MergePhase::Save, MergeReply::Done) => {
                if self.inside {
                    self.phase = MergePhase::MoveOut;
                } else {
                    self.clean(0);
                }
            },
            (MergePhase::MoveOut, MergeReply::Done) => self.clean(0),
            (MergePhase::Fetch, MergeReply::Done) => {
                self.phase = MergePhase::UpdateTrunk;
            },
            (MergePhase::UpdateTrunk, MergeReply::Done) => {
                self.phase = MergePhase::Restack;
            },
            (MergePhase::UpdateTrunk, MergeReply::Failed(_)) => {
                self.phase = MergePhase::Restack;
            },
            (MergePhase::Restack, MergeReply::Restacked { state, report }) => {
                self.state = state;
                self.behind = report.left_behind();
                self.restacked = report.restacked_branches;
                self.push(0);
            },
            (MergePhase::Push, MergeReply::Done) => {
                assert(self.at < self.restacked.len());
                self.push(self.at + 1);
            },
            (MergePhase::SaveAgain, MergeReply::Done) => self.close(),
            (MergePhase::Merge, MergeReply::Failed(t)) => self.end(EzError::Other(t)),
            (MergePhase::Save, MergeReply::Failed(t)) => self.end(EzError::Other(t)),
            (MergePhase::MoveOut, MergeReply::Failed(t)) => self.end(EzError::Other(t)),
            (MergePhase::Fetch, MergeReply::Failed(t)) => self.end(EzError::Other(t)),
            (MergePhase::Push, MergeReply::Failed(t)) => self.end(EzError::Other(t)),
            (MergePhase::SaveAgain, MergeReply::Failed(t)) => self.end(EzError::Other(t)),
            _ => {},
        }
    }

    fn step_clean(&mut self, reply: MergeReply)
        requires
            old(self)@.wf(),
            old(self)@.cleaning(),
        ensures
            final(self)@ == old(self)@.step(reply),
    {
        assert(self.at < self.targets.len());
        match (self.phase, reply) {
            (MergePhase::RemoveWorktree, MergeReply::Done) => {
                self.phase = MergePhase::Look;
            },
            (MergePhase::Look, MergeReply::Branch { there, current }) => {
                self.phase = if !there {
                    MergePhase::DeleteRemote
                } else if current {
                    MergePhase::Checkout
                } else {
                    MergePhase::DeleteBranch
                };
            },
            (MergePhase::Checkout, MergeReply::Done) => {
                self.phase = MergePhase::DeleteBranch;
            },
            (MergePhase::DeleteBranch, MergeReply::Done) => {
                self.phase = MergePhase::DeleteRemote;
            },
            (MergePhase::DeleteBranch, MergeReply::Failed(_)) => {
                self.phase = MergePhase::DeleteRemote;
            },
            (MergePhase::DeleteRemote, MergeReply::Done) => self.clean(self.at + 1),
            (MergePhase::DeleteRemote, MergeReply::Failed(_)) => self.clean(self.at + 1),
            (MergePhase::RemoveWorktree, MergeReply::Failed(t)) => self.end(EzError::Other(t)),
            (MergePhase::Look, MergeReply::Failed(t)) => self.end(EzError::Other(t)),
            (MergePhase::Checkout, MergeReply::Failed(t)) => self.end(EzError::Other(t)),
            _ => {},
        }
    }
}

/// A merge in progress.
#[derive(Debug)]
pub struct Merging {
    data: MergingData,
}

impl View for Merging {
    type V = MergingView;

    closed spec fn view(&self) -> MergingView {
        self.data@
    }
}

/// A merge at its start.
pub open spec fn fresh_merge(
    state: StackView,
    targets: Seq<(Seq<char>, u64)>,
    worktrees: Map<Seq<char>, Seq<char>>,
    inside: bool,
) -> MergingView {
    MergingView {
        state,
        targets,
        worktrees,
        inside,
        phase: MergePhase::Merge,
        at: 0,
        status: None,
        updates: Seq::empty(),
        restacked: Seq::empty(),
        behind: None,
        error: None,
    }
}

/// What a merge leaves behind.
#[derive(Debug)]
pub struct MergeResult {
    pub state: StackState,
    pub status: Option<MergePrOutcome>,
    /// The branches that were restacked and pushed.
    pub pushed: Vec<String>,
    pub error: Option<EzError>,
}

impl Merging {
    #[verifier::type_invariant]
    spec fn in_order(self) -> bool {
        self.data@.wf()
    }

    /// Starts a merge of the targets, which are merged by one request: one branch, or all of a
    /// native stack.
    pub fn begin(
        state: &StackState,
        targets: Vec<MergeTarget>,
        worktrees: NameMap<String>,
        inside: bool,
    ) -> (r: Merging)
        ensures
            r@ == fresh_merge(state@, target_views(targets@), path_views(worktrees@), inside),
    {
        let data = MergingData {
            state: state.copy(),
            targets,
            worktrees,
            inside,
            phase: MergePhase::Merge,
            at: 0,
            status: None,
            updates: Vec::new(),
            restacked: Vec::new(),
            behind: None,
            error: None,
        };
        proof {
            assert(update_views(data.updates@) =~= Seq::<UpdateView>::empty());
            assert(views(data.restacked@) =~= Seq::<Seq<char>>::empty());
        }
        Merging { data }
    }

    /// The merge after a reply to what it waits for.
    pub fn step(self, reply: MergeReply) -> (r: Merging)
        ensures
            r@ == self@.step(reply),
    {
        proof {
            use_type_invariant(&self);
            law_merge_keeps_order(self@, reply);
        }
        let mut data = self.data;
        match data.phase {
            MergePhase::RemoveWorktree
            | MergePhase::Look
            | MergePhase::Checkout
            | MergePhase::DeleteBranch
            | MergePhase::DeleteRemote => data.step_clean(reply),
            _ => data.step_merge(reply),
        }
        Merging { data }
    }

    /// What the merge waits for.
    pub fn phase(&self) -> (r: MergePhase)
        ensures
            r == self@.phase,
    {
        self.data.phase
    }

    /// The pull request that GitHub is asked to merge: the topmost, which takes those below along.
    pub fn request(&self) -> (r: Option<u64>)
        ensures
            r == if self@.targets.len() > 0 {
                Some(self@.targets.last().1)
            } else {
                None
            },
    {
        let targets: &Vec<MergeTarget> = &self.data.targets;
        if targets.len() > 0 {
            Some(targets[targets.len() - 1].pr_number)
        } else {
            None
        }
    }

    /// The branch being cleaned up or pushed, if any.
    pub fn branch(&self) -> (r: Option<&String>)
        ensures
            match r {
                Some(b) => if self@.cleaning() {
                    b@ == self@.targets[self@.at].0
                } else {
                    self@.phase is Push && b@ == self@.restacked[self@.at]
                },
                None => !self@.cleaning() && !(self@.phase is Push),
            },
    {
        proof {
            use_type_invariant(self);
        }
        let d: &MergingData = &self.data;
        match d.phase {
            MergePhase::RemoveWorktree
            | MergePhase::Look
            | MergePhase::Checkout
            | MergePhase::DeleteBranch
            | MergePhase::DeleteRemote => Some(&d.targets[d.at].branch),
            MergePhase::Push => {
                assert(self@.restacked[d.at as int] == d.restacked@[d.at as int]@);
                Some(&d.restacked[d.at])
            },
            _ => None,
        }
    }

    /// The worktree of a branch.
    pub fn worktree(&self, branch: &str) -> (r: Option<&String>)
        ensures
            match r {
                Some(p) => self@.worktrees.contains_key(branch@) && p@ == self@.worktrees[branch@],
                None => !self@.worktrees.contains_key(branch@),
            },
    {
        self.data.worktrees.get(branch)
    }

    /// The stack so far.
    pub fn state(&self) -> (r: &StackState)
        ensures
            r@ == self@.state,
    {
        &self.data.state
    }

    /// The pull requests whose bases are to follow.
    pub fn updates(&self) -> (r: &Vec<PrBaseUpdate>)
        ensures
            update_views(r@) == self@.updates,
    {
        &self.data.updates
    }

    /// What the merge leaves behind.
    pub fn finish(self) -> (r: MergeResult)
        ensures
            r.state@ == self@.state,
            r.status == self@.status,
            views(r.pushed@) == self@.restacked,
            error_view(r.error) == self@.error,
    {
        let d = self.data;
        MergeResult { state: d.state, status: d.status, pushed: d.restacked, error: d.error }
    }
}

/// Forgetting what was merged leaves every other branch standing on the trunk, provided that all
/// stood there before.
pub proof fn law_merge_keeps_ground(s: StackView, gone: Seq<Seq<char>>)
    requires
        s.grounded(),
        !gone.contains(s.trunk),
    ensures
        s.with_branches(merged_out(s.branches, gone, s.trunk)).grounded(),
{
    let m = s.branches;
    let w = merged_out(m, gone, s.trunk);
    assert forall|k: Seq<char>| #[trigger] w.contains_key(k) implies crate::stack::descends(
        w,
        s.trunk,
        k,
    ) by {
        assert(m.contains_key(k));
        let n = choose|n: nat| crate::stack::below(m, s.trunk, k, n);
        lemma_merged_way(m, s.trunk, gone, k, n);
    }
}

proof fn lemma_merged_way(
    m: Forest,
    trunk: Seq<char>,
    gone: Seq<Seq<char>>,
    k: Seq<char>,
    n: nat,
)
    requires
        crate::stack::below(m, trunk, k, n),
        !gone.contains(k),
        !gone.contains(trunk),
    ensures
        crate::stack::descends(merged_out(m, gone, trunk), trunk, k),
    decreases n,
{
    let w = merged_out(m, gone, trunk);
    let p = m[k].parent;
    if p == trunk || gone.contains(p) {
        assert(crate::stack::below(w, trunk, k, 0));
    } else {
        lemma_merged_way(m, trunk, gone, p, (n - 1) as nat);
        let j = choose|j: nat| crate::stack::below(w, trunk, p, j);
        assert(crate::stack::below(w, trunk, k, (j + 1) as nat));
    }
}

/// Once GitHub merged the targets, they are forgotten, what stood directly on them stands on the
/// trunk, nothing else changes, and exactly the pull requests of what was moved get the trunk as
/// their base.
pub proof fn law_merge_leaves_the_rest_on_trunk(v: MergingView, k: Seq<char>, u: UpdateView)
    requires
        v.phase is Merge,
        v.state.branches.dom().finite(),
    ensures
        ({
            let m = v.state.branches;
            let gone = Seq::new(v.targets.len(), |i: int| v.targets[i].0);
            let w = v.step(MergeReply::Merged(MergePrOutcome::Merged));
            let after = w.state.branches;
            &&& w.phase is Publish
            &&& w.state.trunk == v.state.trunk
            &&& after.contains_key(k) <==> m.contains_key(k) && !gone.contains(k)
            &&& after.contains_key(k) && gone.contains(m[k].parent) ==> after[k].parent
                == v.state.trunk && after[k].parent_head == m[k].parent_head
            &&& after.contains_key(k) && !gone.contains(m[k].parent) ==> after[k] == m[k]
            &&& w.updates.contains(u) <==> m.contains_key(u.branch) && !gone.contains(u.branch)
                && gone.contains(m[u.branch].parent) && m[u.branch].pr_number == Some(u.pr_number)
                && u.base == v.state.trunk
        }),
{
    let m = v.state.branches;
    let gone = target_names(v.targets);
    assert(gone =~= Seq::new(v.targets.len(), |i: int| v.targets[i].0));
    crate::cmd::merge::law_merged_branches_leave_their_children_on_trunk(
        m,
        gone,
        v.state.trunk,
        k,
    );
    let moved = outer_children(m, gone);
    assert(moved.subset_of(m.dom()));
    vstd::set_lib::lemma_set_subset_finite(m.dom(), moved);
    crate::names::lemma_ranked_exists(moved);
    let s = v.state.with_branches(outer_moved(m, gone, v.state.trunk));
    crate::cmd::sync::law_bases_follow_recorded_parents(s, ranked(moved), u);
    crate::cmd::merge::law_merged_branches_leave_their_children_on_trunk(
        m,
        gone,
        v.state.trunk,
        u.branch,
    );
    assert(ranked(moved).contains(u.branch) <==> moved.contains(u.branch));
}

/// Each target is cleaned up in turn: its worktree, where it has one, before its branch, the
/// branch before its remote copy; a branch that is checked out is left first.
pub proof fn law_merge_cleans_step_by_step(v: MergingView, there: bool, current: bool)
    requires
        v.wf(),
    ensures
        v.phase is RemoveWorktree ==> v.step(MergeReply::Done).phase is Look && v.step(
            MergeReply::Done,
        ).at == v.at,
        v.phase is Look ==> ({
            let w = v.step(MergeReply::Branch { there, current });
            &&& w.at == v.at
            &&& !there ==> w.phase is DeleteRemote
            &&& there && current ==> w.phase is Checkout
            &&& there && !current ==> w.phase is DeleteBranch
        }),
        v.phase is Checkout ==> v.step(MergeReply::Done).phase is DeleteBranch,
        v.phase is DeleteBranch ==> v.step(MergeReply::Done).phase is DeleteRemote,
        v.phase is DeleteRemote ==> v.step(MergeReply::Done).at == v.at + 1,
        v.phase is DeleteRemote && v.at + 1 < v.targets.len() ==> ({
            let w = v.step(MergeReply::Done);
            &&& w.phase is RemoveWorktree <==> v.worktrees.contains_key(v.targets[v.at + 1].0)
            &&& w.phase is Look <==> !v.worktrees.contains_key(v.targets[v.at + 1].0)
        }),
        v.phase is DeleteRemote && v.at + 1 >= v.targets.len() ==> v.step(
            MergeReply::Done,
        ).phase is Fetch,
        v.phase is Publish ==> v.step(MergeReply::Done).phase is Save,
        v.phase is Save && v.inside ==> v.step(MergeReply::Done).phase is MoveOut,
        v.phase is Save && !v.inside && v.targets.len() > 0 ==> v.step(MergeReply::Done).cleaning()
            && v.step(MergeReply::Done).at == 0,
        v.phase is MoveOut && v.targets.len() > 0 ==> v.step(MergeReply::Done).cleaning() && v.step(
            MergeReply::Done,
        ).at == 0,
        v.phase is Fetch ==> v.step(MergeReply::Done).phase is UpdateTrunk,
        v.phase is UpdateTrunk ==> v.step(MergeReply::Done).phase is Restack,
{
}

/// A merge begins with its request, with the record as it is and nothing done.
pub proof fn law_merge_begins_with_its_request(
    state: StackView,
    targets: Seq<(Seq<char>, u64)>,
    worktrees: Map<Seq<char>, Seq<char>>,
    inside: bool,
)
    ensures
        ({
            let v = fresh_merge(state, targets, worktrees, inside);
            &&& v.phase is Merge
            &&& v.state == state
            &&& v.targets == targets
            &&& v.worktrees == worktrees
            &&& v.inside == inside
            &&& v.at == 0
            &&& v.status is None
            &&& v.updates.len() == 0
            &&& v.restacked.len() == 0
            &&& v.error is None
        }),
{
}

} // verus!
