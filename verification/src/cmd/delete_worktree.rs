//! Deleting a branch, step by step: its worktree is claimed, moved aside and removed before the
//! branch is deleted, and the record changes only when git has nothing left of it.

use crate::cmd::delete::{delete_receipt, delete_worktree_receipt, record_delete, worktree_receipt};
use crate::cmd::sync::{update_views, updates_for, PrBaseUpdate, UpdateView};
use crate::error::{ErrorView, EzError};
use crate::git::{Reply, ReplyView};
use crate::json::{no_fields, Json, JsonView};
use crate::names::{lemma_ranked, ranked};
use crate::stack::{children, forgotten, reparented, StackState, StackView};
use crate::text::{opt_view, views};
use vstd::prelude::*;
use vstd::string::*;

verus! {

/// What a deletion is waiting for.
#[derive(Clone, Copy, Debug, PartialEq, Eq, Structural)]
pub enum DeletePhase {
    /// The process leaving the worktree.
    MoveOut,
    /// The worktree being locked by the claim.
    Claim,
    /// The claim being held against git's list.
    VerifyClaim,
    /// Git forgetting worktrees that are gone.
    Prune,
    /// The claim being held against git's list again.
    VerifyAgain,
    /// A free path to move the worktree to.
    Path,
    /// The worktree being moved there.
    Quarantine,
    /// The claim being given up, after a failure.
    Release,
    /// The moved worktree being unlocked.
    Unlock,
    /// The worktree being moved back, since it could not be unlocked.
    UnlockBack,
    /// The removal of the moved worktree.
    Remove,
    /// The worktree being moved back, since it could not be removed.
    RemoveBack,
    /// The deletion of the branch.
    DeleteBranch,
    /// Whether the branch is still there without its worktree.
    Look,
    /// The worktree being made again.
    Readd,
    /// The end of the processes that served the worktree.
    Stop,
    /// The switch to the parent, where there is no worktree.
    Checkout,
    /// The deletion of the branch, where there is no worktree.
    DeleteLocal,
    /// The switch back, since the branch could not be deleted.
    CheckoutBack,
    /// The pull requests and the remote branch being brought in line, as far as possible.
    Publish,
    /// The saving of the stack.
    Save,
    /// Nothing: the branch is deleted.
    Finished,
    /// Nothing: the branch is not deleted.
    Failed,
}

/// The contents of a `Deletion`.
#[verifier::ext_equal]
pub struct DeletionView {
    pub state: StackView,
    pub target: Seq<char>,
    pub parent: Seq<char>,
    /// The path of the worktree, or nothing.
    pub worktree: Option<Seq<char>>,
    /// Whether the process is on the branch and has to leave it.
    pub switched: bool,
    pub claim: Seq<char>,
    pub quarantine: Seq<char>,
    pub port: u64,
    pub phase: DeletePhase,
    /// What went wrong, while it is being undone.
    pub cause: Seq<char>,
    pub killed: Seq<u64>,
    /// The children that got another parent, by name.
    pub kids: Seq<Seq<char>>,
    /// The pull requests whose bases are to follow.
    pub updates: Seq<UpdateView>,
    pub error: Option<ErrorView>,
}

impl DeletionView {
    pub open spec fn wt(self) -> Seq<char> {
        match self.worktree {
            Some(w) => w,
            None => Seq::empty(),
        }
    }

    pub open spec fn to(self, phase: DeletePhase) -> DeletionView {
        DeletionView { phase: phase, ..self }
    }

    /// Goes on with what undoes a failure.
    pub open spec fn back(self, phase: DeletePhase, cause: Seq<char>) -> DeletionView {
        DeletionView { phase: phase, cause: cause, ..self }
    }

    /// Ends without the branch being deleted.
    pub open spec fn end(self, text: Seq<char>) -> DeletionView {
        DeletionView {
            phase: DeletePhase::Failed,
            error: Some(ErrorView::Other(text)),
            ..self
        }
    }

    /// Records that the branch is gone.
    pub open spec fn record(self, killed: Seq<u64>) -> DeletionView {
        let m = self.state.branches;
        let kids = ranked(children(m, self.target));
        DeletionView {
            state: self.state.with_branches(forgotten(m, self.target, self.parent)),
            killed: killed,
            kids: kids,
            updates: if m[self.target].pr_number is Some {
                updates_for(
                    self.state.with_branches(
                        reparented(m, children(m, self.target), self.parent),
                    ),
                    kids,
                )
            } else {
                Seq::empty()
            },
            phase: DeletePhase::Publish,
            ..self
        }
    }

    pub open spec fn unlock_text(self) -> Seq<char> {
        "Could not unlock quarantined `"@ + self.target + "` worktree at `"@ + self.quarantine
            + "`: "@ + self.cause
    }

    pub open spec fn preserve_text(self, rollback: Seq<char>) -> Seq<char> {
        "\nWorktree-path rollback also failed: "@ + rollback + "\n  → Preserve `"@ + self.quarantine
            + "` and inspect `git worktree list` before retrying"@
    }

    pub open spec fn branch_text(self) -> Seq<char> {
        "Could not delete local branch `"@ + self.target + "` after removing its worktree: "@
            + self.cause
    }

    pub open spec fn kept_text(self) -> Seq<char> {
        self.branch_text() + "\n  → Restored the worktree at `"@ + self.wt()
            + "`; resolve the ref error and retry"@
    }

    /// The deletion after a reply while the worktree is being moved aside.
    pub open spec fn step_claim(self, reply: ReplyView) -> DeletionView {
        match (self.phase, reply) {
            (DeletePhase::MoveOut, ReplyView::Done) => self.to(DeletePhase::Claim),
            (DeletePhase::MoveOut, ReplyView::Failed(t)) => self.end(t),
            (DeletePhase::Claim, ReplyView::Done) => self.to(DeletePhase::VerifyClaim),
            (DeletePhase::Claim, ReplyView::Failed(t)) => self.end(
                "Could not claim `"@ + self.target + "` worktree at `"@ + self.wt()
                    + "` for deletion: "@ + t,
            ),
            (DeletePhase::VerifyClaim, ReplyView::Done) => self.to(DeletePhase::Prune),
            (DeletePhase::VerifyClaim, ReplyView::Failed(t)) => self.back(DeletePhase::Release, t),
            (DeletePhase::Prune, ReplyView::Done) => self.to(DeletePhase::VerifyAgain),
            (DeletePhase::Prune, ReplyView::Failed(t)) => self.back(DeletePhase::Release, t),
            (DeletePhase::VerifyAgain, ReplyView::Done) => self.to(DeletePhase::Path),
            (DeletePhase::VerifyAgain, ReplyView::Failed(t)) => self.back(DeletePhase::Release, t),
            (DeletePhase::Path, ReplyView::Text(q)) => DeletionView {
                quarantine: q,
                phase: DeletePhase::Quarantine,
                ..self
            },
            (DeletePhase::Path, ReplyView::Failed(t)) => self.end(t),
            (DeletePhase::Quarantine, ReplyView::Done) => self.to(DeletePhase::Unlock),
            (DeletePhase::Quarantine, ReplyView::Failed(t)) => self.back(DeletePhase::Release, t),
            (DeletePhase::Release, ReplyView::Done) => self.end(self.cause),
            (DeletePhase::Release, ReplyView::Failed(_)) => self.end(self.cause),
            _ => self,
        }
    }

    /// The deletion after a reply while the worktree and the branch are being removed.
    pub open spec fn step_remove(self, reply: ReplyView) -> DeletionView {
        match (self.phase, reply) {
            (DeletePhase::Unlock, ReplyView::Done) => self.to(DeletePhase::Remove),
            (DeletePhase::Unlock, ReplyView::Failed(t)) => self.back(DeletePhase::UnlockBack, t),
            (DeletePhase::UnlockBack, ReplyView::Done) => self.end(
                self.unlock_text() + "\n  → Restored worktree at `"@ + self.wt() + "`"@,
            ),
            (DeletePhase::UnlockBack, ReplyView::Failed(r)) => self.end(
                self.unlock_text() + self.preserve_text(r),
            ),
            (DeletePhase::Remove, ReplyView::Done) => self.to(DeletePhase::DeleteBranch),
            (DeletePhase::Remove, ReplyView::Failed(t)) => self.back(DeletePhase::RemoveBack, t),
            (DeletePhase::RemoveBack, ReplyView::Done) => self.end(
                "Could not remove worktree at `"@ + self.wt() + "`: "@ + self.cause
                    + "\nUse `ez delete "@ + self.target
                    + " --force` to discard uncommitted changes"@,
            ),
            (DeletePhase::RemoveBack, ReplyView::Failed(r)) => self.end(
                "Could not remove worktree at `"@ + self.wt() + "`: "@ + self.cause
                    + self.preserve_text(r),
            ),
            (DeletePhase::DeleteBranch, ReplyView::Done) => self.to(DeletePhase::Stop),
            (DeletePhase::DeleteBranch, ReplyView::Failed(t)) => self.back(DeletePhase::Look, t),
            (DeletePhase::Look, ReplyView::Flag(lost)) => if lost {
                self.to(DeletePhase::Readd)
            } else {
                self.end(self.kept_text())
            },
            (DeletePhase::Readd, ReplyView::Done) => self.end(self.kept_text()),
            (DeletePhase::Readd, ReplyView::Failed(r)) => self.end(
                self.branch_text() + "\nWorktree rollback also failed: "@ + r
                    + "\n  → The branch still exists; recreate its worktree before retrying"@,
            ),
            (DeletePhase::Stop, ReplyView::Numbers(pids)) => self.record(pids),
            (DeletePhase::Stop, ReplyView::Failed(_)) => self.record(Seq::empty()),
            _ => self,
        }
    }

    /// The deletion after a reply where there is no worktree, and at the end.
    pub open spec fn step_rest(self, reply: ReplyView) -> DeletionView {
        match (self.phase, reply) {
            (DeletePhase::Checkout, ReplyView::Done) => self.to(DeletePhase::DeleteLocal),
            (DeletePhase::Checkout, ReplyView::Failed(t)) => self.end(t),
            (DeletePhase::DeleteLocal, ReplyView::Done) => self.record(Seq::empty()),
            (DeletePhase::DeleteLocal, ReplyView::Failed(t)) => if self.switched {
                self.back(DeletePhase::CheckoutBack, t)
            } else {
                self.end(t)
            },
            (DeletePhase::CheckoutBack, ReplyView::Done) => self.end(self.cause),
            (DeletePhase::CheckoutBack, ReplyView::Failed(r)) => self.end(
                "Could not delete local branch `"@ + self.target + "`: "@ + self.cause
                    + "\nCheckout rollback also failed: "@ + r
                    + "\n  → The branch still exists; inspect the active worktree before retrying"@,
            ),
            (DeletePhase::Publish, ReplyView::Done) => self.to(DeletePhase::Save),
            (DeletePhase::Publish, ReplyView::Failed(_)) => self.to(DeletePhase::Save),
            (DeletePhase::Save, ReplyView::Done) => self.to(DeletePhase::Finished),
            (DeletePhase::Save, ReplyView::Failed(t)) => self.end(t),
            _ => self,
        }
    }

    /// The deletion after a reply. A reply that it does not wait for changes nothing.
    pub open spec fn step(self, reply: ReplyView) -> DeletionView {
        match self.phase {
            DeletePhase::MoveOut
            | DeletePhase::Claim
            | DeletePhase::VerifyClaim
            | DeletePhase::Prune
            | DeletePhase::VerifyAgain
            | DeletePhase::Path
            | DeletePhase::Quarantine
            | DeletePhase::Release => self.step_claim(reply),
            DeletePhase::Unlock
            | DeletePhase::UnlockBack
            | DeletePhase::Remove
            | DeletePhase::RemoveBack
            | DeletePhase::DeleteBranch
            | DeletePhase::Look
            | DeletePhase::Readd
            | DeletePhase::Stop => self.step_remove(reply),
            _ => self.step_rest(reply),
        }
    }

    /// Whether the record has been changed.
    pub open spec fn recorded(self) -> bool {
        self.phase is Publish || self.phase is Save || self.phase is Finished
            || self.phase is Failed
    }

    /// What holds throughout a deletion.
    pub open spec fn wf(self) -> bool {
        !self.recorded() ==> self.state.managed(self.target)
            && self.state.branches[self.target].parent == self.parent
    }
}

/// The record changes only when git reports the branch deleted: by itself, or with its worktree,
/// which is removed before that. Every failure up to then leaves the record as it was.
pub proof fn law_delete_records_last(v: DeletionView, reply: ReplyView)
    requires
        v.wf(),
        v.step(reply).state != v.state,
    ensures
        v.phase is Stop || (v.phase is DeleteLocal && reply is Done),
        v.step(reply).state == v.state.with_branches(
            forgotten(v.state.branches, v.target, v.state.branches[v.target].parent),
        ),
        v.step(reply).phase is Publish,
{
}

/// The branch of a worktree is deleted only after the worktree is removed, and the processes of
/// the worktree are stopped only after the branch is deleted.
pub proof fn law_delete_follows_removal(v: DeletionView, reply: ReplyView)
    ensures
        v.step(reply).phase is DeleteBranch && !(v.phase is DeleteBranch) ==> v.phase is Remove
            && reply is Done,
        v.step(reply).phase is Stop && !(v.phase is Stop) ==> v.phase is DeleteBranch && reply is Done,
{
}

/// A deletion that ends well leaves every other branch standing on the trunk.
pub proof fn law_delete_keeps_ground(v: DeletionView, reply: ReplyView)
    requires
        v.wf(),
        v.state.grounded(),
        v.target != v.state.trunk,
    ensures
        v.step(reply).state.grounded(),
{
    if v.step(reply).state != v.state {
        law_delete_records_last(v, reply);
        crate::stack::law_forgetting_keeps_ground(v.state, v.target, v.parent);
    }
}

#[derive(Debug)]
struct DeletionData {
    state: StackState,
    target: String,
    parent: String,
    worktree: Option<String>,
    switched: bool,
    claim: String,
    quarantine: String,
    port: u64,
    phase: DeletePhase,
    cause: String,
    killed: Vec<u64>,
    kids: Vec<String>,
    updates: Vec<PrBaseUpdate>,
    error: Option<EzError>,
}

impl View for DeletionData {
    type V = DeletionView;

    closed spec fn view(&self) -> DeletionView {
        DeletionView {
            state: self.state@,
            target: self.target@,
            parent: self.parent@,
            worktree: opt_view(self.worktree),
            switched: self.switched,
            claim: self.claim@,
            quarantine: self.quarantine@,
            port: self.port,
            phase: self.phase,
            cause: self.cause@,
            killed: self.killed@,
            kids: views(self.kids@),
            updates: update_views(self.updates@),
            error: match self.error {
                Some(e) => Some(e@),
                None => None,
            },
        }
    }
}

impl DeletionData {
    fn wt(&self) -> (r: String)
        ensures
            r@ == self@.wt(),
    {
        match &self.worktree {
            Some(w) => w.clone(),
            None => String::new(),
        }
    }

    fn back(&mut self, phase: DeletePhase, cause: String)
        ensures
            final(self)@ == old(self)@.back(phase, cause@),
    {
        self.phase = phase;
        self.cause = cause;
    }

    fn end(&mut self, text: String)
        ensures
            final(self)@ == old(self)@.end(text@),
    {
        self.phase = DeletePhase::Failed;
        self.error = Some(EzError::Other(text));
    }

    fn record(&mut self, killed: Vec<u64>)
        requires
            old(self)@.wf(),
            !old(self)@.recorded(),
        ensures
            final(self)@ == old(self)@.record(killed@),
    {
        let ghost v = self@;
        let target: String = self.target.clone();
        match record_delete(&mut self.state, &target) {
            Ok((kids, updates)) => {
                proof {
                    lemma_ranked(views(kids@), children(v.state.branches, v.target));
                }
                self.kids = kids;
                self.updates = updates;
            },
            Err(_) => {},
        }
        self.killed = killed;
        self.phase = DeletePhase::Publish;
    }

    fn unlock_text(&self) -> (r: String)
        ensures
            r@ == self@.unlock_text(),
    {
        String::from_str("Could not unlock quarantined `").concat(&self.target).concat(
            "` worktree at `",
        ).concat(&self.quarantine).concat("`: ").concat(&self.cause)
    }

    fn preserve_text(&self, rollback: &str) -> (r: String)
        ensures
            r@ == self@.preserve_text(rollback@),
    {
        String::from_str("\nWorktree-path rollback also failed: ").concat(rollback).concat(
            "\n  → Preserve `",
        ).concat(&self.quarantine).concat("` and inspect `git worktree list` before retrying")
    }

    fn branch_text(&self) -> (r: String)
        ensures
            r@ == self@.branch_text(),
    {
        String::from_str("Could not delete local branch `").concat(&self.target).concat(
            "` after removing its worktree: ",
        ).concat(&self.cause)
    }

    fn kept_text(&self) -> (r: String)
        ensures
            r@ == self@.kept_text(),
    {
        self.branch_text().concat("\n  → Restored the worktree at `").concat(&self.wt()).concat(
            "`; resolve the ref error and retry",
        )
    }

    fn step_claim(&mut self, reply: Reply)
        ensures
            final(self)@ == old(self)@.step_claim(reply@),
    {
        match (self.phase, reply) {
            (DeletePhase::MoveOut, Reply::Done) => {
                self.phase = DeletePhase::Claim;
            },
            (DeletePhase::MoveOut, Reply::Failed(t)) => self.end(t),
            (DeletePhase::Claim, Reply::Done) => {
                self.phase = DeletePhase::VerifyClaim;
            },
            (DeletePhase::Claim, Reply::Failed(t)) => {
                let text: String = String::from_str("Could not claim `").concat(
                    &self.target,
                ).concat("` worktree at `").concat(&self.wt()).concat("` for deletion: ").concat(
                    &t,
                );
                self.end(text);
            },
            (DeletePhase::VerifyClaim, Reply::Done) => {
                self.phase = DeletePhase::Prune;
            },
            (DeletePhase::VerifyClaim, Reply::Failed(t)) => self.back(DeletePhase::Release, t),
            (DeletePhase::Prune, Reply::Done) => {
                self.phase = DeletePhase::VerifyAgain;
            },
            (DeletePhase::Prune, Reply::Failed(t)) => self.back(DeletePhase::Release, t),
            (DeletePhase::VerifyAgain, Reply::Done) => {
                self.phase = DeletePhase::Path;
            },
            (DeletePhase::VerifyAgain, Reply::Failed(t)) => self.back(DeletePhase::Release, t),
            (DeletePhase::Path, Reply::Text(q)) => {
                self.quarantine = q;
                self.phase = DeletePhase::Quarantine;
            },
            (DeletePhase::Path, Reply::Failed(t)) => self.end(t),
            (DeletePhase::Quarantine, Reply::Done) => {
                self.phase = DeletePhase::Unlock;
            },
            (DeletePhase::Quarantine, Reply::Failed(t)) => self.back(DeletePhase::Release, t),
            (DeletePhase::Release, Reply::Done) => {
                let cause: String = self.cause.clone();
                self.end(cause);
            },
            (DeletePhase::Release, Reply::Failed(_)) => {
                let cause: String = self.cause.clone();
                self.end(cause);
            },
            _ => {},
        }
    }

    fn step_remove(&mut self, reply: Reply)
        requires
            old(self)@.wf(),
        ensures
            final(self)@ == old(self)@.step_remove(reply@),
    {
        match (self.phase, reply) {
            (DeletePhase::Unlock, Reply::Done) => {
                self.phase = DeletePhase::Remove;
            },
            (DeletePhase::Unlock, Reply::Failed(t)) => self.back(DeletePhase::UnlockBack, t),
            (DeletePhase::UnlockBack, Reply::Done) => {
                let text: String = self.unlock_text().concat(
                    "\n  → Restored worktree at `",
                ).concat(&self.wt()).concat("`");
                self.end(text);
            },
            (DeletePhase::UnlockBack, Reply::Failed(r)) => {
                let text: String = self.unlock_text().concat(&self.preserve_text(&r));
                self.end(text);
            },
            (DeletePhase::Remove, Reply::Done) => {
                self.phase = DeletePhase::DeleteBranch;
            },
            (DeletePhase::Remove, Reply::Failed(t)) => self.back(DeletePhase::RemoveBack, t),
            (DeletePhase::RemoveBack, Reply::Done) => {
                let text: String = String::from_str("Could not remove worktree at `").concat(
                    &self.wt(),
                ).concat("`: ").concat(&self.cause).concat("\nUse `ez delete ").concat(
                    &self.target,
                ).concat(" --force` to discard uncommitted changes");
                self.end(text);
            },
            (DeletePhase::RemoveBack, Reply::Failed(r)) => {
                let text: String = String::from_str("Could not remove worktree at `").concat(
                    &self.wt(),
                ).concat("`: ").concat(&self.cause).concat(&self.preserve_text(&r));
                self.end(text);
            },
            (DeletePhase::DeleteBranch, Reply::Done) => {
                self.phase = DeletePhase::Stop;
            },
            (DeletePhase::DeleteBranch, Reply::Failed(t)) => self.back(DeletePhase::Look, t),
            (DeletePhase::Look, Reply::Flag(lost)) => {
                if lost {
                    self.phase = DeletePhase::Readd;
                } else {
                    let text: String = self.kept_text();
                    self.end(text);
                }
            },
            (DeletePhase::Readd, Reply::Done) => {
                let text: String = self.kept_text();
                self.end(text);
            },
            (DeletePhase::Readd, Reply::Failed(r)) => {
                let text: String = self.branch_text().concat(
                    "\nWorktree rollback also failed: ",
                ).concat(&r).concat(
                    "\n  → The branch still exists; recreate its worktree before retrying",
                );
                self.end(text);
            },
            (DeletePhase::Stop, Reply::Numbers(pids)) => self.record(pids),
            (DeletePhase::Stop, Reply::Failed(_)) => {
                let none: Vec<u64> = Vec::new();
                assert(none@ =~= Seq::<u64>::empty());
                self.record(none);
            },
            _ => {},
        }
    }

    fn step_rest(&mut self, reply: Reply)
        requires
            old(self)@.wf(),
        ensures
            final(self)@ == old(self)@.step_rest(reply@),
    {
        match (self.phase, reply) {
            (DeletePhase::Checkout, Reply::Done) => {
                self.phase = DeletePhase::DeleteLocal;
            },
            (DeletePhase::Checkout, Reply::Failed(t)) => self.end(t),
            (DeletePhase::DeleteLocal, Reply::Done) => {
                let none: Vec<u64> = Vec::new();
                assert(none@ =~= Seq::<u64>::empty());
                self.record(none);
            },
            (DeletePhase::DeleteLocal, Reply::Failed(t)) => {
                if self.switched {
                    self.back(DeletePhase::CheckoutBack, t);
                } else {
                    self.end(t);
                }
            },
            (DeletePhase::CheckoutBack, Reply::Done) => {
                let cause: String = self.cause.clone();
                self.end(cause);
            },
            (DeletePhase::CheckoutBack, Reply::Failed(r)) => {
                let text: String = String::from_str("Could not delete local branch `").concat(
                    &self.target,
                ).concat("`: ").concat(&self.cause).concat(
                    "\nCheckout rollback also failed: ",
                ).concat(&r).concat(
                    "\n  → The branch still exists; inspect the active worktree before retrying",
                );
                self.end(text);
            },
            (DeletePhase::Publish, Reply::Done) => {
                self.phase = DeletePhase::Save;
            },
            (DeletePhase::Publish, Reply::Failed(_)) => {
                self.phase = DeletePhase::Save;
            },
            (DeletePhase::Save, Reply::Done) => {
                self.phase = DeletePhase::Finished;
            },
            (DeletePhase::Save, Reply::Failed(t)) => self.end(t),
            _ => {},
        }
    }

    fn step(&mut self, reply: Reply)
        requires
            old(self)@.wf(),
        ensures
            final(self)@ == old(self)@.step(reply@),
    {
        match self.phase {
            DeletePhase::MoveOut
            | DeletePhase::Claim
            | DeletePhase::VerifyClaim
            | DeletePhase::Prune
            | DeletePhase::VerifyAgain
            | DeletePhase::Path
            | DeletePhase::Quarantine
            | DeletePhase::Release => self.step_claim(reply),
            DeletePhase::Unlock
            | DeletePhase::UnlockBack
            | DeletePhase::Remove
            | DeletePhase::RemoveBack
            | DeletePhase::DeleteBranch
            | DeletePhase::Look
            | DeletePhase::Readd
            | DeletePhase::Stop => self.step_remove(reply),
            _ => self.step_rest(reply),
        }
    }
}

/// A deletion in progress.
#[derive(Debug)]
pub struct Deletion {
    data: DeletionData,
}

impl View for Deletion {
    type V = DeletionView;

    closed spec fn view(&self) -> DeletionView {
        self.data@
    }
}

/// A deletion at its start.
pub open spec fn fresh_deletion(
    state: StackView,
    target: Seq<char>,
    worktree: Option<Seq<char>>,
    leave: bool,
    claim: Seq<char>,
    port: u64,
) -> DeletionView {
    DeletionView {
        state,
        target,
        parent: state.branches[target].parent,
        worktree,
        switched: leave,
        claim,
        quarantine: Seq::empty(),
        port,
        phase: match (worktree, leave) {
            (Some(_), true) => DeletePhase::MoveOut,
            (Some(_), false) => DeletePhase::Claim,
            (None, true) => DeletePhase::Checkout,
            (None, false) => DeletePhase::DeleteLocal,
        },
        cause: Seq::empty(),
        killed: Seq::empty(),
        kids: Seq::empty(),
        updates: Seq::empty(),
        error: None,
    }
}

impl Deletion {
    #[verifier::type_invariant]
    spec fn in_order(self) -> bool {
        self.data@.wf()
    }

    /// Starts to delete a recorded branch. `leave` tells whether the process works inside the
    /// branch's worktree, or is on the branch where there is none; `claim` is the reason under
    /// which the worktree is locked meanwhile.
    pub fn begin(
        state: &StackState,
        target: &str,
        worktree: Option<String>,
        leave: bool,
        claim: &str,
        port: u64,
    ) -> (r: Result<Deletion, EzError>)
        ensures
            match r {
                Ok(d) => state@.managed(target@) && d@ == fresh_deletion(
                    state@,
                    target@,
                    opt_view(worktree),
                    leave,
                    claim@,
                    port,
                ),
                Err(e) => !state@.managed(target@) && e@ == ErrorView::BranchNotInStack(target@),
            },
    {
        let parent: String = match state.branches.get(target) {
            Some(meta) => meta.parent.clone(),
            None => {
                return Err(EzError::BranchNotInStack(target.to_owned()));
            },
        };
        let phase: DeletePhase = match (&worktree, leave) {
            (Some(_), true) => DeletePhase::MoveOut,
            (Some(_), false) => DeletePhase::Claim,
            (None, true) => DeletePhase::Checkout,
            (None, false) => DeletePhase::DeleteLocal,
        };
        let data = DeletionData {
            state: state.copy(),
            target: target.to_owned(),
            parent,
            worktree,
            switched: leave,
            claim: claim.to_owned(),
            quarantine: String::new(),
            port,
            phase,
            cause: String::new(),
            killed: Vec::new(),
            kids: Vec::new(),
            updates: Vec::new(),
            error: None,
        };
        proof {
            assert(data.killed@ =~= Seq::<u64>::empty());
            assert(views(data.kids@) =~= Seq::<Seq<char>>::empty());
            assert(update_views(data.updates@) =~= Seq::<UpdateView>::empty());
        }
        Ok(Deletion { data })
    }

    /// The deletion after a reply to what it waits for.
    pub fn step(self, reply: Reply) -> (r: Deletion)
        ensures
            r@ == self@.step(reply@),
    {
        proof {
            use_type_invariant(&self);
        }
        let mut data = self.data;
        data.step(reply);
        Deletion { data }
    }

    /// What the deletion waits for.
    pub fn phase(&self) -> (r: DeletePhase)
        ensures
            r == self@.phase,
    {
        self.data.phase
    }

    /// The branch that is deleted.
    pub fn target(&self) -> (r: &String)
        ensures
            r@ == self@.target,
    {
        &self.data.target
    }

    /// The parent of the branch.
    pub fn parent(&self) -> (r: &String)
        ensures
            r@ == self@.parent,
    {
        &self.data.parent
    }

    /// The path of the branch's worktree; empty where there is none.
    pub fn worktree(&self) -> (r: String)
        ensures
            r@ == self@.wt(),
    {
        self.data.wt()
    }

    /// The path that the worktree is moved to.
    pub fn quarantine(&self) -> (r: &String)
        ensures
            r@ == self@.quarantine,
    {
        &self.data.quarantine
    }

    /// The reason under which the worktree is locked.
    pub fn claim(&self) -> (r: &String)
        ensures
            r@ == self@.claim,
    {
        &self.data.claim
    }

    /// The stack as it is to be saved.
    pub fn state(&self) -> (r: &StackState)
        ensures
            r@ == self@.state,
    {
        &self.data.state
    }

    /// The pull requests whose bases are to follow.
    pub fn updates(&self) -> (r: &Vec<PrBaseUpdate>)
        ensures
            update_views(r@) == self@.updates,
    {
        &self.data.updates
    }

    /// Why the branch is not deleted.
    pub fn error(&self) -> (r: Option<&EzError>)
        ensures
            (match r {
                Some(e) => Some(e@),
                None => None,
            }) == self@.error,
    {
        match &self.data.error {
            Some(e) => Some(e),
            None => None,
        }
    }

    /// The receipt for the deletion.
    pub fn receipt(&self) -> (r: Json)
        ensures
            r@ == match self@.worktree {
                Some(w) => worktree_receipt(
                    self@.target,
                    self@.parent,
                    self@.port,
                    self@.killed,
                    w,
                    self@.kids.len(),
                ),
                None => JsonView::Object(
                    no_fields().insert("cmd"@, JsonView::Text("delete"@)).insert(
                        "branch"@,
                        JsonView::Text(self@.target),
                    ).insert("parent"@, JsonView::Text(self@.parent)).insert(
                        "reparented_children"@,
                        JsonView::Number(self@.kids.len() as u64),
                    ),
                ),
            },
    {
        let d: &DeletionData = &self.data;
        assert(views(d.kids@).len() == d.kids.len());
        match &d.worktree {
            Some(w) => delete_worktree_receipt(
                &d.target,
                &d.parent,
                d.port,
                &d.killed,
                w,
                d.kids.len(),
            ),
            None => delete_receipt(&d.target, &d.parent, d.kids.len()),
        }
    }
}

/// A deleted branch is forgotten, its children stand on the parent that was recorded for it, no
/// other branch changes, and the bases of the children's pull requests follow where the deleted
/// branch had one itself.
pub proof fn law_delete_hands_children_to_parent(
    v: DeletionView,
    pids: Seq<u64>,
    k: Seq<char>,
    u: UpdateView,
)
    requires
        v.wf(),
        v.phase is Stop,
        v.target != v.parent,
        v.state.branches.dom().finite(),
    ensures
        ({
            let m = v.state.branches;
            let w = v.step(ReplyView::Numbers(pids));
            let after = w.state.branches;
            &&& w.phase is Publish
            &&& w.killed == pids
            &&& after.contains_key(k) <==> m.contains_key(k) && k != v.target
            &&& after.contains_key(k) && m[k].parent == v.target ==> after[k].parent
                == m[v.target].parent && after[k].parent_head == m[k].parent_head
            &&& after.contains_key(k) && m[k].parent != v.target ==> after[k] == m[k]
            &&& m[v.target].pr_number is None ==> w.updates.len() == 0
            &&& m[v.target].pr_number is Some ==> (w.updates.contains(u) <==> m.contains_key(
                u.branch,
            ) && m[u.branch].parent == v.target && m[u.branch].pr_number == Some(u.pr_number)
                && u.base == m[v.target].parent)
        }),
{
    let m = v.state.branches;
    let kids = children(m, v.target);
    crate::stack::law_forgetting_moves_only_children(m, v.target, v.parent, k);
    assert(kids.subset_of(m.dom()));
    vstd::set_lib::lemma_set_subset_finite(m.dom(), kids);
    crate::names::lemma_ranked_exists(kids);
    let s = v.state.with_branches(reparented(m, kids, v.parent));
    crate::cmd::sync::law_bases_follow_recorded_parents(s, ranked(kids), u);
    crate::stack::law_reparenting_changes_parents_only(m, kids, v.parent, u.branch);
    crate::stack::law_children_name_their_parent(m, v.target, u.branch);
    assert(ranked(kids).contains(u.branch) <==> kids.contains(u.branch));
}

/// A worktree is claimed, verified, set aside and unlocked before it is removed, and its branch
/// goes after it; without a worktree the branch alone goes, after another is checked out where it
/// was.
pub proof fn law_delete_goes_step_by_step(v: DeletionView, q: Seq<char>)
    ensures
        v.phase is MoveOut ==> v.step(ReplyView::Done).phase is Claim,
        v.phase is Claim ==> v.step(ReplyView::Done).phase is VerifyClaim,
        v.phase is VerifyClaim ==> v.step(ReplyView::Done).phase is Prune,
        v.phase is Prune ==> v.step(ReplyView::Done).phase is VerifyAgain,
        v.phase is VerifyAgain ==> v.step(ReplyView::Done).phase is Path,
        v.phase is Path ==> v.step(ReplyView::Text(q)).phase is Quarantine && v.step(
            ReplyView::Text(q),
        ).quarantine == q,
        v.phase is Quarantine ==> v.step(ReplyView::Done).phase is Unlock,
        v.phase is Unlock ==> v.step(ReplyView::Done).phase is Remove,
        v.phase is Remove ==> v.step(ReplyView::Done).phase is DeleteBranch,
        v.phase is DeleteBranch ==> v.step(ReplyView::Done).phase is Stop,
        v.phase is Checkout ==> v.step(ReplyView::Done).phase is DeleteLocal,
        v.phase is DeleteLocal ==> v.step(ReplyView::Done).phase is Publish,
        v.phase is Publish ==> v.step(ReplyView::Done).phase is Save,
        v.phase is Save ==> v.step(ReplyView::Done).phase is Finished,
{
}

/// What fails on the way is taken back as far as it went: the claim is released, the worktree is
/// moved back or made again, the branch is checked out again; nothing is forgotten.
pub proof fn law_failed_delete_is_taken_back(v: DeletionView, t: Seq<char>)
    requires
        !v.recorded(),
        !(v.phase is Stop),
    ensures
        v.step(ReplyView::Failed(t)).state == v.state,
        v.phase is VerifyClaim || v.phase is Prune || v.phase is VerifyAgain || v.phase is Quarantine
            ==> v.step(ReplyView::Failed(t)).phase is Release,
        v.phase is Unlock ==> v.step(ReplyView::Failed(t)).phase is UnlockBack,
        v.phase is Remove ==> v.step(ReplyView::Failed(t)).phase is RemoveBack,
        v.phase is DeleteBranch ==> v.step(ReplyView::Failed(t)).phase is Look,
        v.phase is Look ==> v.step(ReplyView::Flag(true)).phase is Readd,
        v.phase is DeleteLocal && v.switched ==> v.step(
            ReplyView::Failed(t),
        ).phase is CheckoutBack,
        v.phase is DeleteLocal && !v.switched ==> v.step(ReplyView::Failed(t)).phase is Failed,
{
}

/// A deletion begins where it has to: outside the worktree, with the parent recorded for the
/// branch.
pub proof fn law_delete_begins_with_what_is_there(
    state: StackView,
    target: Seq<char>,
    worktree: Option<Seq<char>>,
    leave: bool,
    claim: Seq<char>,
    port: u64,
)
    ensures
        ({
            let v = fresh_deletion(state, target, worktree, leave, claim, port);
            &&& v.parent == state.branches[target].parent
            &&& v.target == target
            &&& v.state == state
            &&& worktree is Some && leave ==> v.phase is MoveOut
            &&& worktree is Some && !leave ==> v.phase is Claim
            &&& worktree is None && leave ==> v.phase is Checkout
            &&& worktree is None && !leave ==> v.phase is DeleteLocal
        }),
{
}

/// A branch deleted without a worktree is forgotten in the same way: its children stand on the
/// parent that was recorded for it, and no other branch changes.
pub proof fn law_local_delete_hands_children_to_parent(v: DeletionView, k: Seq<char>)
    requires
        v.wf(),
        v.phase is DeleteLocal,
        v.target != v.parent,
    ensures
        ({
            let m = v.state.branches;
            let w = v.step(ReplyView::Done);
            let after = w.state.branches;
            &&& w.phase is Publish
            &&& w.killed.len() == 0
            &&& after.contains_key(k) <==> m.contains_key(k) && k != v.target
            &&& after.contains_key(k) && m[k].parent == v.target ==> after[k].parent
                == m[v.target].parent && after[k].parent_head == m[k].parent_head
            &&& after.contains_key(k) && m[k].parent != v.target ==> after[k] == m[k]
        }),
{
    crate::stack::law_forgetting_moves_only_children(v.state.branches, v.target, v.parent, k);
}

/// Processes that could not be stopped do not keep a branch whose worktree is gone; a base that
/// could not be published does not keep the record from being saved.
pub proof fn law_late_failures_do_not_stop_a_delete(v: DeletionView, t: Seq<char>)
    ensures
        v.phase is Stop ==> v.step(ReplyView::Failed(t)) == v.step(
            ReplyView::Numbers(Seq::<u64>::empty()),
        ),
        v.phase is Publish ==> v.step(ReplyView::Failed(t)).phase is Save && v.step(
            ReplyView::Failed(t),
        ).state == v.state,
        v.phase is Look ==> v.step(ReplyView::Flag(false)).phase is Failed,
        v.phase is Release ==> v.step(ReplyView::Done).phase is Failed && v.step(
            ReplyView::Failed(t),
        ).phase is Failed,
        v.phase is UnlockBack || v.phase is RemoveBack || v.phase is Readd
            || v.phase is CheckoutBack ==> v.step(ReplyView::Done).phase is Failed && v.step(
            ReplyView::Failed(t),
        ).phase is Failed,
        v.phase is Claim || v.phase is MoveOut || v.phase is Path || v.phase is Checkout ==> v.step(
            ReplyView::Failed(t),
        ).phase is Failed,
{
}

} // verus!
