//! Carrying out a move: the branch is brought onto its new parent and recorded there, its pull
//! request and its descendants follow, and so does the native stack that it belonged to.

use crate::branch_map::MetaView;
use crate::cmd::cascade::outcome_view;
use crate::cmd::move_branch::{
    info_view, move_method, move_receipt, moved_receipt, plan_pr_base, pr_base_view, record_move,
    MoveMethod, PrBaseOutcome, PrBasePlan,
};
use crate::cmd::preflight::{BranchPreflight, PreflightView};
use crate::cmd::rebase_conflict::{conflict_receipt, receipt_value};
use crate::cmd::restack::receipt_views;
use crate::error::{error_view, ErrorView, EzError};
use crate::git::RebaseConflict;
use crate::github::{NativeStackInfo, StackInfoView};
use crate::json::{no_fields, Json, JsonObject, JsonView};
use crate::stack::{StackState, StackView};
use vstd::prelude::*;
use vstd::string::*;

verus! {

/// What a move is waiting for.
#[derive(Clone, Copy, Debug, PartialEq, Eq, Structural)]
pub enum MovePhase {
    /// The branch being set onto the new parent's tip.
    Align,
    /// The rebase of the branch.
    Rebase,
    /// The base of the pull request being changed.
    Base,
    /// The descendants being restacked.
    Cascade,
    /// The native stack being made anew.
    Repair,
    /// Nothing: the branch is moved.
    Finished,
    /// Nothing: something failed.
    Failed,
}

/// The answer to what a move waits for.
#[derive(Debug)]
pub enum MoveReply {
    Done,
    Failed(String),
    Conflict(RebaseConflict),
    /// The stack after the cascade, and how that ended.
    Cascaded { state: StackState, outcome: Result<usize, EzError> },
}

/// The contents of a `Moving`.
#[verifier::ext_equal]
pub struct MovingView {
    pub state: StackView,
    pub current: Seq<char>,
    pub from: Seq<char>,
    pub onto: Seq<char>,
    /// The tip of the new parent.
    pub tip: Seq<char>,
    pub pr_number: Option<u64>,
    /// The native stack that the pull request belongs to.
    pub native: Option<StackInfoView>,
    /// How many of the branch's commits the new parent already holds.
    pub redundant: u64,
    pub phase: MovePhase,
    /// What happened to the base of the pull request.
    pub pr_base: JsonView,
    pub receipts: Seq<JsonView>,
    pub error: Option<ErrorView>,
}

/// The receipt for a branch whose commits the new parent already holds.
pub open spec fn aligned_receipt(branch: Seq<char>, onto: Seq<char>, redundant: u64) -> JsonView {
    JsonView::Object(
        no_fields().insert("cmd"@, JsonView::Text("move"@)).insert(
            "branch"@,
            JsonView::Text(branch),
        ).insert("action"@, JsonView::Text("restacked"@)).insert(
            "method"@,
            JsonView::Text("already_applied"@),
        ).insert("parent"@, JsonView::Text(onto)).insert(
            "redundant_commits"@,
            JsonView::Number(redundant),
        ),
    )
}

impl MovingView {
    /// Ends with an error.
    pub open spec fn end(self, e: ErrorView) -> MovingView {
        MovingView { phase: MovePhase::Failed, error: Some(e), ..self }
    }

    /// Adds a receipt.
    pub open spec fn note(self, j: JsonView) -> MovingView {
        MovingView { receipts: self.receipts.push(j), ..self }
    }

    /// Records the branch on its new parent. Its pull request is changed by itself only where it
    /// belongs to no native stack.
    pub open spec fn record(self) -> MovingView {
        MovingView {
            state: self.state.with_branches(
                self.state.branches.insert(
                    self.current,
                    MetaView {
                        parent: self.onto,
                        parent_head: self.tip,
                        ..self.state.branches[self.current]
                    },
                ),
            ),
            phase: if self.pr_number is Some && self.native is None {
                MovePhase::Base
            } else {
                MovePhase::Cascade
            },
            pr_base: if self.pr_number is Some && self.native is Some {
                JsonView::Text("deferred_to_native_stack"@)
            } else {
                JsonView::Null
            },
            ..self
        }
    }

    /// The command that tries the move again.
    pub open spec fn retry(self) -> Seq<char> {
        "ez move --onto "@ + self.onto
    }

    /// The move after a reply. A reply that it does not wait for changes nothing.
    pub open spec fn step(self, reply: MoveReply) -> MovingView {
        match (self.phase, reply) {
            (MovePhase::Align, MoveReply::Done) => self.note(
                aligned_receipt(self.current, self.onto, self.redundant),
            ).record(),
            (MovePhase::Rebase, MoveReply::Done) => self.record(),
            (MovePhase::Rebase, MoveReply::Conflict(c)) => self.note(
                conflict_receipt("move"@, self.current, self.onto, c@, self.retry()),
            ).end(ErrorView::RebaseConflict(self.current)),
            (MovePhase::Base, MoveReply::Done) => MovingView {
                pr_base: JsonView::Text("updated"@),
                phase: MovePhase::Cascade,
                ..self
            },
            (MovePhase::Base, MoveReply::Failed(t)) => MovingView {
                pr_base: pr_base_view(PrBaseOutcome::Failed(t)),
                phase: MovePhase::Cascade,
                ..self
            },
            (MovePhase::Cascade, MoveReply::Cascaded { state, outcome }) => {
                let v = MovingView { state: state@, ..self };
                match outcome_view(outcome) {
                    Ok(n) => MovingView {
                        phase: if self.native is Some {
                            MovePhase::Repair
                        } else {
                            MovePhase::Finished
                        },
                        ..v.note(
                            moved_receipt(
                                self.current,
                                self.from,
                                self.onto,
                                n,
                                self.pr_base,
                                self.native,
                            ),
                        )
                    },
                    Err(e) => v.end(e),
                }
            },
            (MovePhase::Repair, MoveReply::Done) => MovingView {
                phase: MovePhase::Finished,
                ..self
            },
            (MovePhase::Align, MoveReply::Failed(t))
            | (MovePhase::Rebase, MoveReply::Failed(t))
            | (MovePhase::Repair, MoveReply::Failed(t)) => self.end(ErrorView::Other(t@)),
            _ => self,
        }
    }
}

/// A branch that could not be brought onto its new parent stays recorded where it was.
pub proof fn law_failed_move_changes_nothing(v: MovingView, reply: MoveReply)
    requires
        v.phase is Align || v.phase is Rebase,
        v.step(reply).phase is Failed,
    ensures
        v.step(reply).state == v.state,
{
}

/// A move is reported only after its descendants were all restacked: branches left behind end it
/// with their error before that.
pub proof fn law_move_is_reported_after_cascade(
    v: MovingView,
    state: StackState,
    outcome: Result<usize, EzError>,
)
    requires
        v.phase is Cascade,
    ensures
        ({
            let w = v.step(MoveReply::Cascaded { state, outcome });
            match outcome {
                Ok(n) => {
                    &&& w.receipts == v.receipts.push(
                        moved_receipt(v.current, v.from, v.onto, n as nat, v.pr_base, v.native),
                    )
                    &&& w.error == v.error
                },
                Err(e) => w.receipts == v.receipts && w.phase is Failed && w.error == Some(e@),
            }
        }),
{
}

/// A native stack is made anew exactly where the moved pull request belonged to one, and only
/// after the local move is complete; the base of that pull request is not changed by itself.
pub proof fn law_move_repairs_its_native_stack(v: MovingView, reply: MoveReply)
    requires
        v.step(reply).phase != v.phase,
    ensures
        v.step(reply).phase is Repair ==> v.native is Some && v.phase is Cascade,
        v.step(reply).phase is Finished ==> v.phase is Repair || (v.phase is Cascade
            && v.native is None),
        v.step(reply).phase is Base ==> v.native is None && v.pr_number is Some,
{
}

#[derive(Debug)]
struct MovingData {
    state: StackState,
    current: String,
    from: String,
    onto: String,
    tip: String,
    pr_number: Option<u64>,
    native: Option<NativeStackInfo>,
    redundant: u64,
    phase: MovePhase,
    pr_base: PrBaseOutcome,
    receipts: Vec<Json>,
    error: Option<EzError>,
}

impl View for MovingData {
    type V = MovingView;

    closed spec fn view(&self) -> MovingView {
        MovingView {
            state: self.state@,
            current: self.current@,
            from: self.from@,
            onto: self.onto@,
            tip: self.tip@,
            pr_number: self.pr_number,
            native: info_view(self.native),
            redundant: self.redundant,
            phase: self.phase,
            pr_base: pr_base_view(self.pr_base),
            receipts: receipt_views(self.receipts@),
            error: error_view(self.error),
        }
    }
}

impl MovingData {
    fn note(&mut self, j: Json)
        ensures
            final(self)@ == old(self)@.note(j@),
    {
        let ghost held = receipt_views(self.receipts@);
        let ghost v = j@;
        self.receipts.push(j);
        assert(receipt_views(self.receipts@) =~= held.push(v));
    }

    fn end(&mut self, e: EzError)
        ensures
            final(self)@ == old(self)@.end(e@),
    {
        self.phase = MovePhase::Failed;
        self.error = Some(e);
    }

    fn record(&mut self)
        requires
            old(self)@.state.managed(old(self)@.current),
        ensures
            final(self)@ == old(self)@.record(),
    {
        let _ = record_move(&mut self.state, &self.current, &self.onto, &self.tip);
        match plan_pr_base(self.pr_number, self.native.is_some()) {
            PrBasePlan::NoPr => {
                self.pr_base = PrBaseOutcome::NoPr;
                self.phase = MovePhase::Cascade;
            },
            PrBasePlan::Update(_) => {
                self.pr_base = PrBaseOutcome::NoPr;
                self.phase = MovePhase::Base;
            },
            PrBasePlan::Defer => {
                self.pr_base = PrBaseOutcome::DeferredToNativeStack;
                self.phase = MovePhase::Cascade;
            },
        }
    }

    fn step(&mut self, reply: MoveReply)
        requires
            old(self).phase is Align || old(self).phase is Rebase ==> old(self)@.state.managed(
                old(self)@.current,
            ),
        ensures
            final(self)@ == old(self)@.step(reply),
    {
        match (self.phase, reply) {
            (MovePhase::Align, MoveReply::Done) => {
                let receipt: Json = JsonObject::new().field("cmd", Json::text("move")).field(
                    "branch",
                    Json::text(&self.current),
                ).field("action", Json::text("restacked")).field(
                    "method",
                    Json::text("already_applied"),
                ).field("parent", Json::text(&self.onto)).field(
                    "redundant_commits",
                    Json::Number(self.redundant),
                ).done();
                self.note(receipt);
                self.record();
            },
            (MovePhase::Rebase, MoveReply::Done) => self.record(),
            (MovePhase::Rebase, MoveReply::Conflict(c)) => {
                let retry: String = String::from_str("ez move --onto ").concat(&self.onto);
                let receipt: Json = receipt_value("move", &self.current, &self.onto, &c, &retry);
                self.note(receipt);
                let branch: String = self.current.clone();
                self.end(EzError::RebaseConflict(branch));
            },
            (MovePhase::Base, MoveReply::Done) => {
                self.pr_base = PrBaseOutcome::Updated;
                self.phase = MovePhase::Cascade;
            },
            (MovePhase::Base, MoveReply::Failed(t)) => {
                self.pr_base = PrBaseOutcome::Failed(t);
                self.phase = MovePhase::Cascade;
            },
            (MovePhase::Cascade, MoveReply::Cascaded { state, outcome }) => {
                self.state = state;
                match outcome {
                    Ok(n) => {
                        let receipt: Json = move_receipt(
                            &self.current,
                            &self.from,
                            &self.onto,
                            n,
                            &self.pr_base,
                            &self.native,
                        );
                        self.note(receipt);
                        self.phase = if self.native.is_some() {
                            MovePhase::Repair
                        } else {
                            MovePhase::Finished
                        };
                    },
                    Err(e) => self.end(e),
                }
            },
            (MovePhase::Repair, MoveReply::Done) => {
                self.phase = MovePhase::Finished;
            },
            (MovePhase::Align, MoveReply::Failed(t)) => self.end(EzError::Other(t)),
            (MovePhase::Rebase, MoveReply::Failed(t)) => self.end(EzError::Other(t)),
            (MovePhase::Repair, MoveReply::Failed(t)) => self.end(EzError::Other(t)),
            _ => {},
        }
    }
}

/// A move in progress.
#[derive(Debug)]
pub struct Moving {
    data: MovingData,
}

impl View for Moving {
    type V = MovingView;

    closed spec fn view(&self) -> MovingView {
        self.data@
    }
}

/// A move at its start.
pub open spec fn fresh_move(
    state: StackView,
    current: Seq<char>,
    onto: Seq<char>,
    tip: Seq<char>,
    own: Option<PreflightView>,
    native: Option<StackInfoView>,
) -> MovingView {
    MovingView {
        state,
        current,
        from: state.branches[current].parent,
        onto,
        tip,
        pr_number: state.branches[current].pr_number,
        native,
        redundant: match own {
            Some(p) => p.cherry.redundant,
            None => 0,
        },
        phase: match own {
            Some(p) => if p.all_redundant() {
                MovePhase::Align
            } else {
                MovePhase::Rebase
            },
            None => MovePhase::Rebase,
        },
        pr_base: JsonView::Null,
        receipts: Seq::empty(),
        error: None,
    }
}

impl Moving {
    #[verifier::type_invariant]
    spec fn in_order(self) -> bool {
        self.data@.phase is Align || self.data@.phase is Rebase ==> self.data@.state.managed(
            self.data@.current,
        )
    }

    /// Starts to move `current` onto `onto`, whose tip is given. `own` is what the preflight found
    /// of the branch itself, and `native` the native stack of its pull request.
    pub fn begin(
        state: &StackState,
        current: &str,
        onto: &str,
        tip: &str,
        own: Option<&BranchPreflight>,
        native: Option<NativeStackInfo>,
    ) -> (r: Moving)
        requires
            state@.managed(current@),
        ensures
            r@ == fresh_move(
                state@,
                current@,
                onto@,
                tip@,
                match own {
                    Some(p) => Some(p@),
                    None => None,
                },
                info_view(native),
            ),
    {
        let (from, pr_number): (String, Option<u64>) = match state.branches.get(current) {
            Some(meta) => (meta.parent.clone(), meta.pr_number),
            None => (String::new(), None),
        };
        let (redundant, phase): (u64, MovePhase) = match own {
            Some(p) => (
                p.cherry.redundant,
                match move_method(p) {
                    MoveMethod::Align => MovePhase::Align,
                    MoveMethod::Rebase => MovePhase::Rebase,
                },
            ),
            None => (0, MovePhase::Rebase),
        };
        let data = MovingData {
            state: state.copy(),
            current: current.to_owned(),
            from,
            onto: onto.to_owned(),
            tip: tip.to_owned(),
            pr_number,
            native,
            redundant,
            phase,
            pr_base: PrBaseOutcome::NoPr,
            receipts: Vec::new(),
            error: None,
        };
        assert(receipt_views(data.receipts@) =~= Seq::<JsonView>::empty());
        Moving { data }
    }

    /// The move after a reply to what it waits for.
    pub fn step(self, reply: MoveReply) -> (r: Moving)
        ensures
            r@ == self@.step(reply),
    {
        proof {
            use_type_invariant(&self);
        }
        let mut data = self.data;
        data.step(reply);
        Moving { data }
    }

    /// What the move waits for.
    pub fn phase(&self) -> (r: MovePhase)
        ensures
            r == self@.phase,
    {
        self.data.phase
    }

    /// The stack so far.
    pub fn state(&self) -> (r: &StackState)
        ensures
            r@ == self@.state,
    {
        &self.data.state
    }

    /// The pull request of the moved branch.
    pub fn pr_number(&self) -> (r: Option<u64>)
        ensures
            r == self@.pr_number,
    {
        self.data.pr_number
    }

    /// The receipts so far.
    pub fn receipts(&self) -> (r: &Vec<Json>)
        ensures
            receipt_views(r@) == self@.receipts,
    {
        &self.data.receipts
    }

    /// Why the move failed, if it did.
    pub fn finish(self) -> (r: Result<StackState, EzError>)
        ensures
            match self@.error {
                Some(e) => r matches Err(x) && x@ == e,
                None => r matches Ok(s) && s@ == self@.state,
            },
    {
        let d = self.data;
        match d.error {
            Some(e) => Err(e),
            None => Ok(d.state),
        }
    }
}

/// A branch that was brought onto its new parent is recorded there, at the tip it was brought to;
/// nothing else of it changes, and no other branch does.
pub proof fn law_moved_branch_stands_on_its_new_parent(v: MovingView, k: Seq<char>)
    requires
        v.phase is Align || v.phase is Rebase,
        v.state.branches.contains_key(v.current),
    ensures
        ({
            let m = v.state.branches;
            let w = v.step(MoveReply::Done);
            let after = w.state.branches;
            &&& after[v.current].parent == v.onto
            &&& after[v.current].parent_head == v.tip
            &&& after[v.current].pr_number == m[v.current].pr_number
            &&& after[v.current].scope == m[v.current].scope
            &&& w.state.trunk == v.state.trunk
            &&& after.contains_key(k) <==> m.contains_key(k)
            &&& k != v.current && m.contains_key(k) ==> after[k] == m[k]
            &&& w.phase is Base <==> v.pr_number is Some && v.native is None
            &&& w.phase is Cascade <==> v.pr_number is None || v.native is Some
        }),
{
}

/// A move begins with an alignment exactly where the new parent holds all commits of the branch,
/// and with a rebase otherwise; it knows the branch's own parent and pull request.
pub proof fn law_move_begins_with_what_is_left(
    state: StackView,
    current: Seq<char>,
    onto: Seq<char>,
    tip: Seq<char>,
    own: Option<PreflightView>,
    native: Option<StackInfoView>,
)
    ensures
        ({
            let v = fresh_move(state, current, onto, tip, own, native);
            &&& v.phase is Align <==> (own matches Some(p) && p.cherry.unique == 0
                && p.cherry.redundant > 0 && p.merge_commits == 0)
            &&& v.phase is Align || v.phase is Rebase
            &&& v.from == state.branches[current].parent
            &&& v.pr_number == state.branches[current].pr_number
            &&& v.onto == onto
            &&& v.tip == tip
            &&& v.state == state
        }),
{
}

/// The base of a pull request is told as it went, and never stops a move.
pub proof fn law_pr_base_is_told(v: MovingView, text: String)
    requires
        v.phase is Base,
    ensures
        v.step(MoveReply::Done).phase is Cascade,
        v.step(MoveReply::Done).pr_base == JsonView::Text("updated"@),
        v.step(MoveReply::Failed(text)).phase is Cascade,
        v.step(MoveReply::Failed(text)).pr_base == pr_base_view(PrBaseOutcome::Failed(text)),
        v.step(MoveReply::Failed(text)).state == v.state,
{
}

} // verus!
