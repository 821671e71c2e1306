//! The end of a sync: the stack is saved, the process goes back to where it was, the bases of pull
//! requests follow, and GitHub's native stacks come last.

use crate::cmd::restack::receipt_views;
use crate::cmd::sync::{
    base_receipt, native_follow_up, pr_base_receipt, return_plan, stale_bases_receipt,
    stale_receipt, update_reparented_pr_bases, update_views, updates_for, NativeFollowUp,
    PrBaseUpdate, ReturnPlan, SyncFinalize, UpdateView,
};
use crate::json::{Json, JsonView};
use crate::stack::{StackState, StackView};
use crate::text::{opt_view, views};
use vstd::prelude::*;
use vstd::string::*;

verus! {

/// What the end of a sync waits for.
#[derive(Clone, Copy, Debug, PartialEq, Eq, Structural)]
pub enum ClosingPhase {
    /// The saving of the stack.
    Save,
    /// The switch back to the branch it began on.
    ReturnOriginal,
    /// The switch to the trunk.
    ReturnTrunk,
    /// Git forgetting worktrees that are gone.
    Prune,
    /// A pull request's base being brought in line.
    Update,
    /// The native stacks being brought in line.
    Link,
    /// Nothing.
    Finished,
    /// Nothing: something failed.
    Failed,
}

/// The answer to what the end of a sync waits for.
#[derive(Debug)]
pub enum ClosingReply {
    Done,
    Failed(String),
}

/// The contents of a `Closing`.
#[verifier::ext_equal]
pub struct ClosingView {
    /// Where the process goes.
    pub back: ReturnPlan,
    /// Whether native stacks are to be brought in line.
    pub reconcile: bool,
    pub updates: Seq<UpdateView>,
    pub phase: ClosingPhase,
    /// The base in work.
    pub at: int,
    /// Whether all bases so far were updated.
    pub all_updated: bool,
    pub receipts: Seq<JsonView>,
    pub error: Option<Seq<char>>,
}

impl ClosingView {
    pub open spec fn to(self, phase: ClosingPhase) -> ClosingView {
        ClosingView { phase: phase, ..self }
    }

    /// Goes on with base `i`, or past the last one: native stacks follow only where every base
    /// is right.
    pub open spec fn on(self, i: int) -> ClosingView {
        let v = ClosingView { at: i, ..self };
        if i < self.updates.len() {
            v.to(ClosingPhase::Update)
        } else if !self.reconcile {
            v.to(ClosingPhase::Finished)
        } else if self.all_updated {
            v.to(ClosingPhase::Link)
        } else {
            ClosingView { receipts: self.receipts.push(stale_receipt()), ..v }.to(
                ClosingPhase::Finished,
            )
        }
    }

    /// Notes what came of the base in work.
    pub open spec fn noted(self, error: Option<Seq<char>>) -> ClosingView {
        ClosingView {
            all_updated: self.all_updated && error is None,
            receipts: self.receipts.push(base_receipt(self.updates[self.at], error)),
            ..self
        }.on(self.at + 1)
    }

    pub open spec fn end(self, text: Seq<char>) -> ClosingView {
        ClosingView { phase: ClosingPhase::Failed, error: Some(text), ..self }
    }

    /// The end after a reply. What comes after the saving is done as far as possible.
    pub open spec fn step(self, reply: ClosingReply) -> ClosingView {
        match (self.phase, reply) {
            (ClosingPhase::Save, ClosingReply::Done) => self.to(
                match self.back {
                    ReturnPlan::Stay => ClosingPhase::Prune,
                    ReturnPlan::Original => ClosingPhase::ReturnOriginal,
                    ReturnPlan::Trunk => ClosingPhase::ReturnTrunk,
                },
            ),
            (ClosingPhase::Save, ClosingReply::Failed(t)) => self.end(t@),
            (ClosingPhase::ReturnOriginal, _) => self.to(ClosingPhase::Prune),
            (ClosingPhase::ReturnTrunk, _) => self.to(ClosingPhase::Prune),
            (ClosingPhase::Prune, _) => self.on(0),
            (ClosingPhase::Update, ClosingReply::Done) => self.noted(None),
            (ClosingPhase::Update, ClosingReply::Failed(t)) => self.noted(Some(t@)),
            (ClosingPhase::Link, ClosingReply::Done) => self.to(ClosingPhase::Finished),
            (ClosingPhase::Link, ClosingReply::Failed(t)) => self.end(t@),
            (ClosingPhase::Finished, _) => self,
            (ClosingPhase::Failed, _) => self,
        }
    }

    /// What holds throughout: there is a base in work while bases are updated, and native stacks
    /// come after all of them.
    pub open spec fn wf(self) -> bool {
        &&& 0 <= self.at <= self.updates.len()
        &&& self.phase is Update ==> self.at < self.updates.len()
        &&& self.phase is Link ==> self.reconcile && self.all_updated && self.at
            == self.updates.len()
    }
}

/// Every reply keeps what holds throughout: native stacks are brought in line only after every
/// pull request's base was, and only where that succeeded.
pub proof fn law_closing_keeps_order(v: ClosingView, reply: ClosingReply)
    requires
        v.wf(),
    ensures
        v.step(reply).wf(),
{
}

/// Nothing follows a saving that failed.
pub proof fn law_closing_saves_first(v: ClosingView, reply: ClosingReply)
    requires
        v.phase is Save,
    ensures
        reply is Failed ==> v.step(reply).phase is Failed && v.step(reply).receipts == v.receipts,
        v.step(reply).at == v.at,
{
}

/// Each base gets its receipt, whether it could be updated or not.
pub proof fn law_each_base_is_reported(v: ClosingView, reply: ClosingReply)
    requires
        v.wf(),
        v.phase is Update,
    ensures
        v.step(reply).at == v.at + 1,
        v.step(reply).receipts.len() > v.receipts.len(),
        v.step(reply).receipts[v.receipts.len() as int] == base_receipt(
            v.updates[v.at],
            match reply {
                ClosingReply::Done => None,
                ClosingReply::Failed(t) => Some(t@),
            },
        ),
{
}

#[derive(Debug)]
struct ClosingData {
    back: ReturnPlan,
    reconcile: bool,
    updates: Vec<PrBaseUpdate>,
    phase: ClosingPhase,
    at: usize,
    all_updated: bool,
    receipts: Vec<Json>,
    error: Option<String>,
}

impl View for ClosingData {
    type V = ClosingView;

    closed spec fn view(&self) -> ClosingView {
        ClosingView {
            back: self.back,
            reconcile: self.reconcile,
            updates: update_views(self.updates@),
            phase: self.phase,
            at: self.at as int,
            all_updated: self.all_updated,
            receipts: receipt_views(self.receipts@),
            error: opt_view(self.error),
        }
    }
}

impl ClosingData {
    fn on(&mut self, i: usize)
        ensures
            final(self)@ == old(self)@.on(i as int),
    {
        let ghost v = self@;
        self.at = i;
        if i < self.updates.len() {
            self.phase = ClosingPhase::Update;
            return;
        }
        match native_follow_up(self.all_updated, self.reconcile) {
            NativeFollowUp::Nothing => {
                self.phase = ClosingPhase::Finished;
            },
            NativeFollowUp::Reconcile => {
                self.phase = ClosingPhase::Link;
            },
            NativeFollowUp::SkipStaleBases => {
                self.receipts.push(stale_bases_receipt());
                assert(receipt_views(self.receipts@) =~= v.receipts.push(stale_receipt()));
                self.phase = ClosingPhase::Finished;
            },
        }
        assert(self@ =~= v.on(i as int));
    }

    fn note(&mut self, error: Option<String>)
        requires
            old(self)@.wf(),
            old(self)@.phase is Update,
        ensures
            final(self)@ == old(self)@.noted(opt_view(error)),
    {
        let ghost v = self@;
        assert(v.updates[v.at] == self.updates@[self.at as int]@);
        let receipt: Json = pr_base_receipt(&self.updates[self.at], &error);
        let ghost j = receipt@;
        if error.is_some() {
            self.all_updated = false;
        }
        self.receipts.push(receipt);
        assert(receipt_views(self.receipts@) =~= v.receipts.push(j));
        assert(self.at < self.updates.len());
        self.on(self.at + 1);
    }

    fn end(&mut self, text: String)
        ensures
            final(self)@ == old(self)@.end(text@),
    {
        self.phase = ClosingPhase::Failed;
        self.error = Some(text);
    }

    fn step(&mut self, reply: ClosingReply)
        requires
            old(self)@.wf(),
        ensures
            final(self)@ == old(self)@.step(reply),
    {
        match (self.phase, reply) {
            (ClosingPhase::Save, ClosingReply::Done) => {
                self.phase = match self.back {
                    ReturnPlan::Stay => ClosingPhase::Prune,
                    ReturnPlan::Original => ClosingPhase::ReturnOriginal,
                    ReturnPlan::Trunk => ClosingPhase::ReturnTrunk,
                };
            },
            (ClosingPhase::Save, ClosingReply::Failed(t)) => self.end(t),
            (ClosingPhase::ReturnOriginal, _) => {
                self.phase = ClosingPhase::Prune;
            },
            (ClosingPhase::ReturnTrunk, _) => {
                self.phase = ClosingPhase::Prune;
            },
            (ClosingPhase::Prune, _) => self.on(0),
            (ClosingPhase::Update, ClosingReply::Done) => self.note(None),
            (ClosingPhase::Update, ClosingReply::Failed(t)) => self.note(Some(t)),
            (ClosingPhase::Link, ClosingReply::Done) => {
                self.phase = ClosingPhase::Finished;
            },
            (ClosingPhase::Link, ClosingReply::Failed(t)) => self.end(t),
            (ClosingPhase::Finished, _) => {},
            (ClosingPhase::Failed, _) => {},
        }
    }
}

/// The end of a sync in progress.
#[derive(Debug)]
pub struct Closing {
    data: ClosingData,
}

impl View for Closing {
    type V = ClosingView;

    closed spec fn view(&self) -> ClosingView {
        self.data@
    }
}

/// The first state of the end of a sync.
pub open spec fn fresh_closing(
    s: StackView,
    plan: SyncFinalize,
    moved: Seq<Seq<char>>,
    left_worktree: bool,
    original_exists: bool,
) -> ClosingView {
    ClosingView {
        back: if left_worktree {
            ReturnPlan::Stay
        } else if original_exists {
            ReturnPlan::Original
        } else {
            ReturnPlan::Trunk
        },
        reconcile: plan.reconcile_native,
        updates: updates_for(s, moved),
        phase: ClosingPhase::Save,
        at: 0,
        all_updated: true,
        receipts: Seq::empty(),
        error: None,
    }
}

impl Closing {
    #[verifier::type_invariant]
    spec fn in_order(self) -> bool {
        self.data@.wf()
    }

    /// Starts the end of a sync. `moved` are the branches that got another parent,
    /// `left_worktree` tells whether the worktree of the process was removed, and
    /// `original_exists` whether the branch that it was on is still there.
    pub fn begin(
        state: &StackState,
        plan: SyncFinalize,
        moved: &Vec<String>,
        left_worktree: bool,
        original_exists: bool,
    ) -> (r: Closing)
        ensures
            r@ == fresh_closing(state@, plan, views(moved@), left_worktree, original_exists),
    {
        let data = ClosingData {
            back: return_plan(left_worktree, original_exists),
            reconcile: plan.reconcile_native,
            updates: update_reparented_pr_bases(state, moved),
            phase: ClosingPhase::Save,
            at: 0,
            all_updated: true,
            receipts: Vec::new(),
            error: None,
        };
        assert(receipt_views(data.receipts@) =~= Seq::<JsonView>::empty());
        Closing { data }
    }

    /// The end of a sync after a reply to what it waits for.
    pub fn step(self, reply: ClosingReply) -> (r: Closing)
        ensures
            r@ == self@.step(reply),
    {
        proof {
            use_type_invariant(&self);
            law_closing_keeps_order(self@, reply);
        }
        let mut data = self.data;
        data.step(reply);
        Closing { data }
    }

    /// What the end of a sync waits for.
    pub fn phase(&self) -> (r: ClosingPhase)
        ensures
            r == self@.phase,
    {
        self.data.phase
    }

    /// The base in work, if any.
    pub fn update(&self) -> (r: Option<&PrBaseUpdate>)
        ensures
            match r {
                Some(u) => self@.phase is Update && u@ == self@.updates[self@.at],
                None => !(self@.phase is Update),
            },
    {
        proof {
            use_type_invariant(&self);
        }
        match self.data.phase {
            ClosingPhase::Update => {
                assert(self@.updates.len() == self.data.updates.len());
                Some(&self.data.updates[self.data.at])
            },
            _ => None,
        }
    }

    /// The receipts, and why the end failed, if it did.
    pub fn finish(self) -> (r: (Vec<Json>, Option<String>))
        ensures
            receipt_views(r.0@) == self@.receipts,
            opt_view(r.1) == self@.error,
    {
        (self.data.receipts, self.data.error)
    }
}

/// A sync ends where the process is: it stays where its worktree was removed, goes back to the
/// branch it began on where that is still there, and to the trunk otherwise.
pub proof fn law_sync_goes_back(
    s: crate::stack::StackView,
    plan: SyncFinalize,
    moved: Seq<Seq<char>>,
    left_worktree: bool,
    original_exists: bool,
)
    ensures
        ({
            let v = fresh_closing(s, plan, moved, left_worktree, original_exists);
            let w = v.step(ClosingReply::Done);
            &&& v.phase is Save
            &&& left_worktree ==> w.phase is Prune
            &&& !left_worktree && original_exists ==> w.phase is ReturnOriginal
            &&& !left_worktree && !original_exists ==> w.phase is ReturnTrunk
            &&& v.reconcile == plan.reconcile_native
            &&& v.all_updated
        }),
{
}

/// Native stacks are linked exactly where that was planned and every base before it could be
/// updated; one base that could not be is enough to leave them alone.
pub proof fn law_stale_base_keeps_native_stacks(v: ClosingView, reply: ClosingReply)
    requires
        v.wf(),
        v.phase is Update,
    ensures
        ({
            let w = v.step(reply);
            &&& w.all_updated <==> v.all_updated && reply is Done
            &&& v.at + 1 < v.updates.len() ==> w.phase is Update
            &&& v.at + 1 == v.updates.len() ==> (w.phase is Link <==> v.reconcile && v.all_updated
                && reply is Done)
            &&& v.at + 1 == v.updates.len() && !(w.phase is Link) ==> w.phase is Finished
        }),
{
}

/// Once the sync went back and pruned, the bases are updated one by one from the first.
pub proof fn law_bases_come_after_the_way_back(v: ClosingView, reply: ClosingReply)
    ensures
        v.phase is ReturnOriginal || v.phase is ReturnTrunk ==> v.step(reply).phase is Prune,
        v.phase is Prune && v.updates.len() > 0 ==> v.step(reply).phase is Update && v.step(
            reply,
        ).at == 0,
        v.phase is Prune && v.updates.len() == 0 && !v.reconcile ==> v.step(reply).phase is Finished,
        v.phase is Prune && v.updates.len() == 0 && v.reconcile && v.all_updated ==> v.step(
            reply,
        ).phase is Link,
        v.phase is Link && reply is Done ==> v.step(reply).phase is Finished && v.step(reply).error
            == v.error,
        v.phase is Link && reply is Failed ==> v.step(reply).phase is Failed,
{
}

/// A sync that left its worktree stays; otherwise it goes back to its branch, or to the trunk where
/// that is gone. It begins by saving.
pub proof fn law_closing_begins_with_saving(
    s: StackView,
    plan: SyncFinalize,
    moved: Seq<Seq<char>>,
    left_worktree: bool,
    original_exists: bool,
)
    ensures
        ({
            let v = fresh_closing(s, plan, moved, left_worktree, original_exists);
            &&& v.phase is Save
            &&& v.at == 0
            &&& v.error is None
            &&& v.all_updated
            &&& v.reconcile == plan.reconcile_native
            &&& v.back == ReturnPlan::Stay <==> left_worktree
            &&& v.back == ReturnPlan::Original <==> !left_worktree && original_exists
            &&& v.back == ReturnPlan::Trunk <==> !left_worktree && !original_exists
        }),
{
}

} // verus!
