//! A restack from its first branch to its end: whatever came of the branches, the stack is saved
//! and the branch that the work began on is checked out again.

use crate::cmd::restack::{
    incomplete_error, incomplete_receipt, receipt_views, Restack, RestackAction, RestackActionView,
    RestackReply, RestackReport, RestackView,
};
use crate::error::{error_view, ErrorView, EzError};
use crate::json::Json;
use crate::stack::StackState;
use crate::text::views;
use vstd::prelude::*;
use vstd::string::*;

verus! {

/// What a cascade is waiting for.
#[derive(Clone, Copy, Debug, PartialEq, Eq, Structural)]
pub enum CascadePhase {
    /// The restack itself.
    Restack,
    /// The saving of the stack.
    Save,
    /// The way back to the branch that the work began on.
    Return,
    /// Nothing.
    Ended,
}

/// The answer to what a cascade asked for.
#[derive(Debug)]
pub enum CascadeReply {
    Restack(RestackReply),
    Done,
    Failed(String),
}

/// The contents of a `Cascade`.
#[verifier::ext_equal]
pub struct CascadeView {
    pub restack: RestackView,
    pub return_to: Seq<char>,
    /// Whether the stack is saved before the way back, or after it.
    pub save_first: bool,
    pub phase: CascadePhase,
    pub saved: bool,
    pub returned: bool,
    /// What ended the cascade early.
    pub error: Option<ErrorView>,
}

impl CascadeView {
    /// Goes on with the restack, or past it once it is finished.
    pub open spec fn with(self, restack: RestackView) -> CascadeView {
        CascadeView {
            restack,
            phase: if !(restack.phase is Finished) {
                CascadePhase::Restack
            } else if self.save_first {
                CascadePhase::Save
            } else {
                CascadePhase::Return
            },
            ..self
        }
    }

    /// Ends early.
    pub open spec fn end(self, e: ErrorView) -> CascadeView {
        CascadeView { phase: CascadePhase::Ended, error: Some(e), ..self }
    }

    /// Whether `w` is the cascade after a reply. A reply that it does not wait for changes
    /// nothing.
    pub open spec fn steps(self, reply: CascadeReply, w: CascadeView) -> bool {
        match (self.phase, reply) {
            (CascadePhase::Restack, CascadeReply::Restack(r)) => {
                self.restack.steps(r, w.restack) && w == self.with(w.restack)
            },
            (CascadePhase::Save, CascadeReply::Done) => w == (CascadeView {
                saved: true,
                phase: if self.save_first {
                    CascadePhase::Return
                } else {
                    CascadePhase::Ended
                },
                ..self
            }),
            (CascadePhase::Return, CascadeReply::Done) => w == (CascadeView {
                returned: true,
                phase: if self.save_first {
                    CascadePhase::Ended
                } else {
                    CascadePhase::Save
                },
                ..self
            }),
            (CascadePhase::Save, CascadeReply::Failed(t)) => w == self.end(ErrorView::Other(t@)),
            (CascadePhase::Return, CascadeReply::Failed(t)) => w == self.end(ErrorView::Other(t@)),
            _ => w == self,
        }
    }

    /// How the cascade ends: with the number of branches that moved, or an error.
    pub open spec fn outcome(self) -> Result<nat, ErrorView> {
        match self.error {
            Some(e) => Err(e),
            None => self.restack.verdict(),
        }
    }

    /// What holds throughout a cascade.
    pub open spec fn wf(self) -> bool {
        &&& self.phase is Restack <==> !(self.restack.phase is Finished)
        &&& match self.phase {
            CascadePhase::Restack => !self.saved && !self.returned && self.error is None,
            CascadePhase::Save => !self.saved && self.returned == !self.save_first
                && self.error is None,
            CascadePhase::Return => !self.returned && self.saved == self.save_first
                && self.error is None,
            CascadePhase::Ended => self.error is Some || (self.saved && self.returned),
        }
    }
}

/// Every reply keeps what holds throughout a cascade.
pub proof fn law_cascade_keeps_order(v: CascadeView, reply: CascadeReply, w: CascadeView)
    requires
        v.wf(),
        v.steps(reply, w),
    ensures
        w.wf(),
{
}

/// Once its restack is finished, whatever came of the branches, a cascade saves the stack and
/// goes back to where the work began, and only then ends: with the number of branches that moved
/// where all did that had to, and else with the error that counts and names the others.
pub proof fn law_cascade_saves_and_returns(
    v: CascadeView,
    reply: RestackReply,
    w: CascadeView,
    x: CascadeView,
    e: CascadeView,
)
    requires
        v.wf(),
        v.phase is Restack,
        v.steps(CascadeReply::Restack(reply), w),
        w.restack.phase is Finished,
        w.steps(CascadeReply::Done, x),
        x.steps(CascadeReply::Done, e),
    ensures
        e.phase is Ended,
        e.saved && e.returned,
        e.restack == w.restack,
        e.outcome() == w.restack.verdict(),
{
}

/// A cascade ends well only after it left no branch behind, saved the stack, and went back to
/// where the work began.
pub proof fn law_cascade_ends_well_only_clean(v: CascadeView)
    requires
        v.wf(),
        v.phase is Ended,
        v.outcome() is Ok,
    ensures
        v.saved && v.returned,
        v.restack.failures.len() == 0,
        v.outcome() == Ok::<nat, ErrorView>(v.restack.restacked.len()),
{
}

/// What a cascade asks for next.
#[derive(Debug)]
pub enum CascadeAction {
    Restack(RestackAction),
    /// Save the stack.
    Save,
    /// Check the branch out.
    Return(String),
    /// Nothing more.
    Ended,
}

/// The contents of a `CascadeAction`.
#[verifier::ext_equal]
pub enum CascadeActionView {
    Restack(RestackActionView),
    Save,
    Return(Seq<char>),
    Ended,
}

impl View for CascadeAction {
    type V = CascadeActionView;

    open spec fn view(&self) -> CascadeActionView {
        match *self {
            CascadeAction::Restack(a) => CascadeActionView::Restack(a@),
            CascadeAction::Save => CascadeActionView::Save,
            CascadeAction::Return(b) => CascadeActionView::Return(b@),
            CascadeAction::Ended => CascadeActionView::Ended,
        }
    }
}

impl CascadeView {
    /// What a cascade asks for next.
    pub open spec fn action(self) -> CascadeActionView {
        match self.phase {
            CascadePhase::Restack => CascadeActionView::Restack(self.restack.action()),
            CascadePhase::Save => CascadeActionView::Save,
            CascadePhase::Return => CascadeActionView::Return(self.return_to),
            CascadePhase::Ended => CascadeActionView::Ended,
        }
    }
}

#[derive(Debug)]
struct CascadeData {
    restack: Restack,
    return_to: String,
    save_first: bool,
    phase: CascadePhase,
    saved: bool,
    returned: bool,
    error: Option<EzError>,
}

impl View for CascadeData {
    type V = CascadeView;

    closed spec fn view(&self) -> CascadeView {
        CascadeView {
            restack: self.restack@,
            return_to: self.return_to@,
            save_first: self.save_first,
            phase: self.phase,
            saved: self.saved,
            returned: self.returned,
            error: error_view(self.error),
        }
    }
}

/// A cascade in progress.
#[derive(Debug)]
pub struct Cascade {
    data: CascadeData,
}

impl View for Cascade {
    type V = CascadeView;

    closed spec fn view(&self) -> CascadeView {
        self.data@
    }
}

/// A cascade at its start.
pub open spec fn fresh_cascade(
    restack: RestackView,
    return_to: Seq<char>,
    save_first: bool,
) -> CascadeView {
    CascadeView {
        restack,
        return_to,
        save_first,
        phase: CascadePhase::Restack,
        saved: false,
        returned: false,
        error: None,
    }.with(restack)
}

/// What a cascade leaves.
#[derive(Debug)]
pub struct CascadeResult {
    pub state: StackState,
    /// How many branches moved, or why the command fails.
    pub outcome: Result<usize, EzError>,
    pub report: RestackReport,
    pub receipts: Vec<Json>,
    /// The receipt for the branches left behind, if there are any.
    pub incomplete: Option<Json>,
}

/// The contents of an outcome.
pub open spec fn outcome_view(r: Result<usize, EzError>) -> Result<nat, ErrorView> {
    match r {
        Ok(n) => Ok(n as nat),
        Err(e) => Err(e@),
    }
}

fn past(restack: &Restack, save_first: bool) -> (r: CascadePhase)
    ensures
        forall|v: CascadeView|
            v.save_first == save_first ==> #[trigger] v.with(restack@).phase == r,
{
    if !restack.is_finished() {
        CascadePhase::Restack
    } else if save_first {
        CascadePhase::Save
    } else {
        CascadePhase::Return
    }
}

impl Cascade {
    #[verifier::type_invariant]
    spec fn in_order(self) -> bool {
        self.data@.wf()
    }

    /// Starts a cascade with its restack, which ends on `return_to`.
    pub fn begin(restack: Restack, return_to: &str, save_first: bool) -> (r: Cascade)
        ensures
            r@ == fresh_cascade(restack@, return_to@, save_first),
    {
        let phase: CascadePhase = past(&restack, save_first);
        let ghost want = fresh_cascade(restack@, return_to@, save_first);
        let data = CascadeData {
            restack,
            return_to: return_to.to_owned(),
            save_first,
            phase,
            saved: false,
            returned: false,
            error: None,
        };
        assert(data@ =~= want);
        Cascade { data }
    }

    /// The cascade after a reply to what it asked for.
    pub fn step(self, reply: CascadeReply) -> (r: Cascade)
        ensures
            self@.steps(reply, r@),
    {
        proof {
            use_type_invariant(&self);
        }
        let ghost v = self@;
        let d = self.data;
        let data: CascadeData = match (d.phase, reply) {
            (CascadePhase::Restack, CascadeReply::Restack(r)) => {
                let restack: Restack = d.restack.step(r);
                let phase: CascadePhase = past(&restack, d.save_first);
                assert(v.with(restack@).phase == phase);
                let after = CascadeData { restack, phase, ..d };
                assert(after@ =~= v.with(restack@));
                after
            },
            (CascadePhase::Save, CascadeReply::Done) => {
                let phase: CascadePhase = if d.save_first {
                    CascadePhase::Return
                } else {
                    CascadePhase::Ended
                };
                CascadeData { saved: true, phase, ..d }
            },
            (CascadePhase::Return, CascadeReply::Done) => {
                let phase: CascadePhase = if d.save_first {
                    CascadePhase::Ended
                } else {
                    CascadePhase::Save
                };
                CascadeData { returned: true, phase, ..d }
            },
            (CascadePhase::Save, CascadeReply::Failed(t)) => CascadeData {
                phase: CascadePhase::Ended,
                error: Some(EzError::Other(t)),
                ..d
            },
            (CascadePhase::Return, CascadeReply::Failed(t)) => CascadeData {
                phase: CascadePhase::Ended,
                error: Some(EzError::Other(t)),
                ..d
            },
            _ => d,
        };
        proof {
            assert(self@.steps(reply, data@));
            law_cascade_keeps_order(self@, reply, data@);
        }
        Cascade { data }
    }

    /// What the cascade asks for next.
    pub fn action(&self) -> (r: CascadeAction)
        ensures
            r@ == self@.action(),
    {
        match self.data.phase {
            CascadePhase::Restack => CascadeAction::Restack(self.data.restack.action()),
            CascadePhase::Save => CascadeAction::Save,
            CascadePhase::Return => CascadeAction::Return(self.data.return_to.clone()),
            CascadePhase::Ended => CascadeAction::Ended,
        }
    }

    /// The stack so far, which is what is saved.
    pub fn state(&self) -> (r: &StackState)
        ensures
            r@ == self@.restack.state,
    {
        self.data.restack.state()
    }

    /// What the cascade leaves.
    pub fn finish(self) -> (r: CascadeResult)
        ensures
            r.state@ == self@.restack.state,
            outcome_view(r.outcome) == self@.outcome(),
            r.report.restacked == r.report.restacked_branches.len(),
            views(r.report.restacked_branches@) == self@.restack.restacked,
            crate::cmd::restack::failure_views(r.report.failures@) == self@.restack.failures,
            receipt_views(r.receipts@) == self@.restack.receipts,
            match r.incomplete {
                Some(j) => self@.restack.failures.len() > 0 && j@ == incomplete_receipt(
                    self@.restack.cmd,
                    r.report,
                ),
                None => self@.restack.failures.len() == 0,
            },
    {
        let d = self.data;
        let outcome: Result<usize, EzError> = match d.error {
            Some(e) => Err(e),
            None => d.restack.verdict(),
        };
        let cmd: String = d.restack.cmd();
        let (state, report, receipts) = d.restack.finish();
        assert(crate::cmd::restack::failure_views(report.failures@).len() == report.failures.len());
        let incomplete: Option<Json> = if report.is_clean() {
            None
        } else {
            Some(incomplete_error(&cmd, &report).1)
        };
        CascadeResult { state, outcome, report, receipts, incomplete }
    }
}

/// A cascade restacks until it is done, and only then saves and returns, in the order asked for,
/// to the branch it came from.
pub proof fn law_cascade_begins_with_its_restack(
    restack: RestackView,
    return_to: Seq<char>,
    save_first: bool,
)
    ensures
        ({
            let v = fresh_cascade(restack, return_to, save_first);
            &&& !(restack.phase is Finished) ==> v.phase is Restack
            &&& restack.phase is Finished && save_first ==> v.phase is Save
            &&& restack.phase is Finished && !save_first ==> v.phase is Return
            &&& v.return_to == return_to
            &&& v.restack == restack
            &&& !v.saved && !v.returned && v.error is None
            &&& v.phase is Return ==> v.action() == CascadeActionView::Return(return_to)
        }),
{
}

} // verus!
