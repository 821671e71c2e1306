//! Carrying out a push: the branch is pushed before its pull request is looked at, and that is
//! brought in line before it is recorded.

use crate::cmd::mutation_guard::{ScopeReceiptData, ScopeView};
use crate::cmd::push::{
    head_of, head_ref, pr_plan, push_or_update_pr, push_receipt, pushed_receipt, with_pull,
    PrFacts, PrPlan, PrPlanView, PrWish, PushTarget, TargetView, WishView,
};
use crate::error::{error_view, ErrorView, EzError};
use crate::github::PrInfo;
use crate::json::{Json, JsonView};
use crate::stack::{StackState, StackView};
use crate::text::opt_view;
use vstd::prelude::*;
use vstd::string::*;

verus! {

/// What a push is waiting for.
#[derive(Clone, Copy, Debug, PartialEq, Eq, Structural)]
pub enum PushPhase {
    /// The latest of the branch from the remote.
    Fetch,
    /// The push itself.
    Push,
    /// What is known of the branch's pull request.
    Look,
    /// The pull request being brought in line, as far as possible.
    Update,
    /// A pull request being opened.
    Create,
    /// The saving of the stack.
    Save,
    /// Nothing: all is done.
    Finished,
    /// Nothing: something failed.
    Failed,
}

/// The answer to what a push waits for.
#[derive(Debug)]
pub enum PushReply {
    Done,
    Failed(String),
    Facts(PrFacts),
    /// The pull request that was opened.
    Opened(PrInfo),
}

/// The contents of a `Pushing`.
#[verifier::ext_equal]
pub struct PushingView {
    pub state: StackView,
    pub current: Seq<char>,
    /// The base of the pull request.
    pub parent: Seq<char>,
    pub target: TargetView,
    pub wish: WishView,
    /// Whether pull requests are left alone.
    pub leave_prs: bool,
    /// What a commit before the push said of the branch's scope.
    pub scope: ScopeView,
    /// Whether a pull request was recorded before.
    pub had_pr: bool,
    pub phase: PushPhase,
    pub plan: Option<PrPlanView>,
    /// The address of the pull request.
    pub url: Option<Seq<char>>,
    pub receipt: Option<JsonView>,
    pub error: Option<ErrorView>,
}

impl PushingView {
    pub open spec fn to(self, phase: PushPhase) -> PushingView {
        PushingView { phase: phase, ..self }
    }

    pub open spec fn end(self, e: ErrorView) -> PushingView {
        PushingView { phase: PushPhase::Failed, error: Some(e), ..self }
    }

    /// Ends well, with a receipt.
    pub open spec fn close(self, created: bool) -> PushingView {
        PushingView {
            phase: PushPhase::Finished,
            receipt: Some(
                pushed_receipt(
                    self.current,
                    self.state.branches[self.current].pr_number,
                    self.url,
                    created,
                    self.scope,
                ),
            ),
            ..self
        }
    }

    /// Plans how the pull request is brought in line, and records the one that is there.
    pub open spec fn planned(self, facts: PrFacts) -> PushingView {
        PushingView {
            state: match facts.existing {
                Some(pr) => with_pull(self.state, self.current, pr.number),
                None => self.state,
            },
            plan: Some(
                pr_plan(
                    self.state,
                    self.current,
                    self.parent,
                    head_of(self.target, self.current),
                    self.wish,
                    facts,
                ),
            ),
            phase: if facts.existing is Some {
                PushPhase::Update
            } else {
                PushPhase::Create
            },
            ..self
        }
    }

    /// The push after a reply. A reply that it does not wait for changes nothing.
    pub open spec fn step(self, reply: PushReply) -> PushingView {
        match (self.phase, reply) {
            (PushPhase::Fetch, PushReply::Done) => self.to(PushPhase::Push),
            (PushPhase::Push, PushReply::Done) => if self.leave_prs {
                self.close(false)
            } else {
                self.to(PushPhase::Look)
            },
            (PushPhase::Look, PushReply::Facts(facts)) => self.planned(facts),
            (PushPhase::Update, PushReply::Done) => PushingView {
                url: match self.plan {
                    Some(PrPlanView::Update { url, .. }) => Some(url),
                    _ => None,
                },
                phase: PushPhase::Save,
                ..self
            },
            (PushPhase::Create, PushReply::Opened(pr)) => PushingView {
                state: with_pull(self.state, self.current, pr.number),
                url: Some(pr.url@),
                phase: PushPhase::Save,
                ..self
            },
            (PushPhase::Save, PushReply::Done) => self.close(!self.had_pr),
            (PushPhase::Fetch, PushReply::Failed(t))
            | (PushPhase::Push, PushReply::Failed(t))
            | (PushPhase::Look, PushReply::Failed(t))
            | (PushPhase::Create, PushReply::Failed(t))
            | (PushPhase::Save, PushReply::Failed(t)) => self.end(ErrorView::Other(t@)),
            _ => self,
        }
    }

    /// Whether the pull request is in work.
    pub open spec fn on_pull_request(self) -> bool {
        self.phase is Look || self.phase is Update || self.phase is Create || self.phase is Save
    }

    /// What holds throughout a push.
    pub open spec fn wf(self) -> bool {
        &&& self.state.managed(self.current)
        &&& self.on_pull_request() ==> !self.leave_prs
        &&& self.phase is Failed <==> self.error is Some
        &&& self.phase is Finished <==> self.receipt is Some
        &&& self.phase is Update ==> (self.plan matches Some(PrPlanView::Update { .. }))
            && self.state.branches[self.current].pr_number is Some
        &&& self.phase is Create ==> (self.plan matches Some(PrPlanView::Create { .. }))
        &&& self.phase is Save ==> self.url is Some
            && self.state.branches[self.current].pr_number is Some
        &&& self.phase is Finished && !self.leave_prs ==> self.url is Some
            && self.state.branches[self.current].pr_number is Some
    }
}

/// Every reply keeps what holds throughout a push: pull requests that are to be left alone are
/// never in work, and a push that ends well otherwise has recorded one.
pub proof fn law_push_keeps_order(v: PushingView, reply: PushReply)
    requires
        v.wf(),
    ensures
        v.step(reply).wf(),
        v.step(reply).leave_prs == v.leave_prs,
{
}

/// The pull request is looked at only after the push was done, and never where it is switched
/// off.
pub proof fn law_pull_request_comes_after_push(v: PushingView, reply: PushReply)
    requires
        v.wf(),
        v.step(reply).on_pull_request(),
        !v.on_pull_request(),
    ensures
        v.phase is Push,
        reply is Done,
        !v.leave_prs,
        v.step(reply).state == v.state,
{
}

/// A push that leaves pull requests alone ends with the push, and records nothing.
pub proof fn law_push_without_pull_request(v: PushingView)
    requires
        v.wf(),
        v.phase is Push,
        v.leave_prs,
    ensures
        v.step(PushReply::Done).phase is Finished,
        v.step(PushReply::Done).state == v.state,
        v.step(PushReply::Done).receipt == Some(
            pushed_receipt(
                v.current,
                v.state.branches[v.current].pr_number,
                v.url,
                false,
                v.scope,
            ),
        ),
{
}

/// A push that failed records nothing.
pub proof fn law_failed_push_records_nothing(v: PushingView, text: String)
    requires
        v.phase is Fetch || v.phase is Push || v.phase is Look,
    ensures
        v.step(PushReply::Failed(text)).phase is Failed,
        v.step(PushReply::Failed(text)).state == v.state,
{
}

#[derive(Debug)]
struct PushingData {
    state: StackState,
    current: String,
    parent: String,
    target: PushTarget,
    wish: PrWish,
    leave_prs: bool,
    scope: ScopeReceiptData,
    had_pr: bool,
    phase: PushPhase,
    plan: Option<PrPlan>,
    url: Option<String>,
    receipt: Option<Json>,
    error: Option<EzError>,
}

impl View for PushingData {
    type V = PushingView;

    closed spec fn view(&self) -> PushingView {
        PushingView {
            state: self.state@,
            current: self.current@,
            parent: self.parent@,
            target: self.target@,
            wish: self.wish@,
            leave_prs: self.leave_prs,
            scope: self.scope@,
            had_pr: self.had_pr,
            phase: self.phase,
            plan: match self.plan {
                Some(p) => Some(p@),
                None => None,
            },
            url: opt_view(self.url),
            receipt: match self.receipt {
                Some(j) => Some(j@),
                None => None,
            },
            error: error_view(self.error),
        }
    }
}

impl PushingData {
    fn end(&mut self, e: EzError)
        ensures
            final(self)@ == old(self)@.end(e@),
    {
        self.phase = PushPhase::Failed;
        self.error = Some(e);
    }

    fn close(&mut self, created: bool)
        requires
            old(self)@.state.managed(old(self)@.current),
        ensures
            final(self)@ == old(self)@.close(created),
    {
        let number: Option<u64> = match self.state.branches.get(&self.current) {
            Some(meta) => meta.pr_number,
            None => None,
        };
        self.receipt = Some(push_receipt(&self.current, number, &self.url, created, &self.scope));
        self.phase = PushPhase::Finished;
    }

    fn look(&mut self, facts: PrFacts)
        requires
            old(self)@.state.managed(old(self)@.current),
        ensures
            final(self)@ == old(self)@.planned(facts),
    {
        let ghost v = self@;
        let head: String = head_ref(&self.target, &self.current);
        match push_or_update_pr(
            &mut self.state,
            &self.current,
            &self.parent,
            &head,
            &self.wish,
            &facts,
        ) {
            Ok(p) => {
                self.plan = Some(p);
            },
            Err(_) => {},
        }
        self.phase = if facts.existing.is_some() {
            PushPhase::Update
        } else {
            PushPhase::Create
        };
        assert(self@ =~= v.planned(facts));
    }

    fn step(&mut self, reply: PushReply)
        requires
            old(self)@.wf(),
        ensures
            final(self)@ == old(self)@.step(reply),
    {
        let ghost v = self@;
        match (self.phase, reply) {
            (PushPhase::Fetch, PushReply::Done) => {
                self.phase = PushPhase::Push;
            },
            (PushPhase::Push, PushReply::Done) => {
                if self.leave_prs {
                    self.close(false);
                } else {
                    self.phase = PushPhase::Look;
                }
            },
            (PushPhase::Look, PushReply::Facts(facts)) => self.look(facts),
            (PushPhase::Update, PushReply::Done) => {
                self.url = match &self.plan {
                    Some(PrPlan::Update { url, .. }) => Some(url.clone()),
                    _ => None,
                };
                self.phase = PushPhase::Save;
            },
            (PushPhase::Create, PushReply::Opened(pr)) => {
                let _ = self.state.set_pr_number(&self.current, Some(pr.number));
                self.url = Some(pr.url);
                self.phase = PushPhase::Save;
            },
            (PushPhase::Save, PushReply::Done) => {
                let created: bool = !self.had_pr;
                self.close(created);
            },
            (PushPhase::Fetch, PushReply::Failed(t)) => self.end(EzError::Other(t)),
            (PushPhase::Push, PushReply::Failed(t)) => self.end(EzError::Other(t)),
            (PushPhase::Look, PushReply::Failed(t)) => self.end(EzError::Other(t)),
            (PushPhase::Create, PushReply::Failed(t)) => self.end(EzError::Other(t)),
            (PushPhase::Save, PushReply::Failed(t)) => self.end(EzError::Other(t)),
            _ => {},
        }
        assert(self@ =~= v.step(reply));
    }
}

/// A push in progress.
#[derive(Debug)]
pub struct Pushing {
    data: PushingData,
}

impl View for Pushing {
    type V = PushingView;

    closed spec fn view(&self) -> PushingView {
        self.data@
    }
}

/// A push at its start.
pub open spec fn fresh_push(
    state: StackView,
    current: Seq<char>,
    parent: Seq<char>,
    target: TargetView,
    wish: WishView,
    leave_prs: bool,
    scope: ScopeView,
) -> PushingView {
    PushingView {
        state,
        current,
        parent,
        target,
        wish,
        leave_prs,
        scope,
        had_pr: state.branches[current].pr_number is Some,
        phase: PushPhase::Fetch,
        plan: None,
        url: None,
        receipt: None,
        error: None,
    }
}

impl Pushing {
    #[verifier::type_invariant]
    spec fn in_order(self) -> bool {
        self.data@.wf()
    }

    /// Starts to push a recorded branch.
    pub fn begin(
        state: &StackState,
        current: &str,
        parent: String,
        target: PushTarget,
        wish: PrWish,
        leave_prs: bool,
        scope: ScopeReceiptData,
    ) -> (r: Pushing)
        requires
            state@.managed(current@),
        ensures
            r@ == fresh_push(
                state@,
                current@,
                parent@,
                target@,
                wish@,
                leave_prs,
                scope@,
            ),
    {
        let had_pr: bool = match state.branches.get(current) {
            Some(meta) => meta.pr_number.is_some(),
            None => false,
        };
        Pushing {
            data: PushingData {
                state: state.copy(),
                current: current.to_owned(),
                parent,
                target,
                wish,
                leave_prs,
                scope,
                had_pr,
                phase: PushPhase::Fetch,
                plan: None,
                url: None,
                receipt: None,
                error: None,
            },
        }
    }

    /// The push after a reply to what it waits for.
    pub fn step(self, reply: PushReply) -> (r: Pushing)
        ensures
            r@ == self@.step(reply),
    {
        proof {
            use_type_invariant(&self);
            law_push_keeps_order(self@, reply);
        }
        let mut data = self.data;
        data.step(reply);
        Pushing { data }
    }

    /// What the push waits for.
    pub fn phase(&self) -> (r: PushPhase)
        ensures
            r == self@.phase,
    {
        self.data.phase
    }

    /// The base of the pull request.
    pub fn parent(&self) -> (r: &String)
        ensures
            r@ == self@.parent,
    {
        &self.data.parent
    }

    /// Where the branch is pushed, and where its pull request is.
    pub fn target(&self) -> (r: &PushTarget)
        ensures
            r@ == self@.target,
    {
        &self.data.target
    }

    /// How the pull request is brought in line.
    pub fn plan(&self) -> (r: Option<&PrPlan>)
        ensures
            match r {
                Some(p) => self@.plan == Some(p@),
                None => self@.plan is None,
            },
    {
        match &self.data.plan {
            Some(p) => Some(p),
            None => None,
        }
    }

    /// The stack so far.
    pub fn state(&self) -> (r: &StackState)
        ensures
            r@ == self@.state,
    {
        &self.data.state
    }

    /// The address of the pull request, where there is one, and the receipt of a finished push;
    /// or why the push failed.
    pub fn finish(self) -> (r: Result<(Option<String>, Option<Json>), EzError>)
        ensures
            match r {
                Ok(p) => self@.error is None && opt_view(p.0) == self@.url && (match p.1 {
                    Some(j) => Some(j@),
                    None => None,
                }) == self@.receipt,
                Err(e) => self@.error == Some(e@),
            },
    {
        match self.data.error {
            Some(e) => Err(e),
            None => Ok((self.data.url, self.data.receipt)),
        }
    }
}

/// A push fetches, pushes and looks at the pull request in this order; what it finds is recorded
/// for the branch and updated, what it does not find is opened, and the opened number is recorded.
pub proof fn law_push_records_what_github_tells(
    v: PushingView,
    facts: PrFacts,
    pr: PrInfo,
    k: Seq<char>,
)
    requires
        v.wf(),
    ensures
        v.phase is Fetch ==> v.step(PushReply::Done).phase is Push,
        v.phase is Push && !v.leave_prs ==> v.step(PushReply::Done).phase is Look,
        v.phase is Look && facts.existing is Some ==> ({
            let w = v.step(PushReply::Facts(facts));
            &&& w.phase is Update
            &&& w.state.branches[v.current].pr_number == Some(facts.existing->0.number)
            &&& w.state.branches[v.current].parent == v.state.branches[v.current].parent
            &&& k != v.current ==> w.state.branches[k] == v.state.branches[k]
            &&& w.step(PushReply::Done).url == Some(facts.existing->0.url@)
        }),
        v.phase is Look && facts.existing is None ==> ({
            let w = v.step(PushReply::Facts(facts));
            &&& w.phase is Create
            &&& w.state == v.state
            &&& w.plan matches Some(PrPlanView::Create { base, .. }) && base == v.parent
        }),
        v.phase is Create ==> ({
            let w = v.step(PushReply::Opened(pr));
            &&& w.phase is Save
            &&& w.state.branches[v.current].pr_number == Some(pr.number)
            &&& w.state.branches[v.current].parent == v.state.branches[v.current].parent
            &&& k != v.current ==> w.state.branches[k] == v.state.branches[k]
            &&& w.url == Some(pr.url@)
        }),
        v.phase is Update ==> v.step(PushReply::Done).phase is Save && v.step(
            PushReply::Done,
        ).state == v.state,
        v.phase is Save ==> v.step(PushReply::Done).phase is Finished,
{
}

/// A push says that it created a pull request exactly where the branch had none recorded before.
pub proof fn law_push_tells_what_is_new(
    state: StackView,
    current: Seq<char>,
    parent: Seq<char>,
    target: TargetView,
    wish: WishView,
    leave_prs: bool,
    scope: ScopeView,
    v: PushingView,
)
    requires
        v.phase is Save,
    ensures
        ({
            let f = fresh_push(state, current, parent, target, wish, leave_prs, scope);
            &&& f.had_pr <==> state.branches[current].pr_number is Some
            &&& f.phase is Fetch
            &&& f.state == state
            &&& f.leave_prs == leave_prs
            &&& f.parent == parent
        }),
        v.step(PushReply::Done).receipt == Some(
            pushed_receipt(
                v.current,
                v.state.branches[v.current].pr_number,
                v.url,
                !v.had_pr,
                v.scope,
            ),
        ),
{
}

} // verus!
