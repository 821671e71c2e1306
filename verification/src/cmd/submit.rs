//! Pushing a whole stack and bringing its pull requests in line.

use crate::branch_map::MetaView;
use crate::cmd::native_stack::{error_receipt_value, outcome_receipt, receipt_value};
use crate::cmd::push::{
    head_of, head_ref, pr_plan, push_or_update_pr, push_target, resolve_draft, target_of, with_pull,
    PrFacts, PrPlan, PrPlanView, PrWish, PushTarget, TargetView, WishView,
};
use crate::cmd::restack::receipt_views;
use crate::error::{ErrorView, EzError};
use crate::github::{copy_numbers, NativeStackOutcome, PrInfo};
use crate::json::{
    no_fields, number_list, number_or_null, text_list, text_or_null, Json, JsonObject, JsonView,
};
use crate::stack::{StackState, StackView};
use crate::text::{copy_all, opt_view, same, views};
use vstd::prelude::*;
use vstd::string::*;

verus! {

/// The branches of a path without the trunk, the last first.
pub open spec fn submitted(path: Seq<Seq<char>>, trunk: Seq<char>) -> Seq<Seq<char>> {
    path.reverse().filter(|b: Seq<char>| b != trunk)
}

/// The branches of a path to the trunk from the bottom up, without the trunk.
pub fn branches_to_submit(path_to_trunk: &Vec<String>, trunk: &str) -> (r: Vec<String>)
    ensures
        views(r@) == submitted(views(path_to_trunk@), trunk@),
{
    let ghost back = views(path_to_trunk@).reverse();
    let ghost keep = |b: Seq<char>| b != trunk@;
    let mut out: Vec<String> = Vec::new();
    let mut i: usize = path_to_trunk.len();
    assert(views(out@) =~= Seq::<Seq<char>>::empty());
    assert(back.take(0) =~= Seq::<Seq<char>>::empty());
    proof {
        reveal(Seq::filter);
    }
    while i > 0
        invariant
            0 <= i <= path_to_trunk.len(),
            back == views(path_to_trunk@).reverse(),
            keep == (|b: Seq<char>| b != trunk@),
            views(out@) == back.take(path_to_trunk.len() - i).filter(keep),
        decreases i,
    {
        let ghost held = views(out@);
        i -= 1;
        let b: &String = &path_to_trunk[i];
        proof {
            reveal(Seq::filter);
            let k = path_to_trunk.len() - 1 - i;
            assert(back[k] == b@);
            assert(back.take(k + 1).drop_last() =~= back.take(k));
            assert(back.take(k + 1).last() == b@);
        }
        if !same(b, trunk) {
            out.push(b.clone());
            assert(views(out@) =~= held.push(b@));
        }
    }
    assert(back.take(path_to_trunk.len() as int) =~= back);
    out
}

/// What a submission is waiting for.
#[derive(Clone, Copy, Debug, PartialEq, Eq, Structural)]
pub enum SubmitPhase {
    /// The remote's view of a branch being fetched.
    Fetch,
    /// All branches being pushed at once.
    Push,
    /// What is known of a branch's pull request.
    Look,
    /// An existing pull request being brought in line, as far as possible.
    Update,
    /// A pull request being opened.
    Create,
    /// The saving of the stack.
    Save,
    /// The pull requests being linked.
    Link,
    /// Nothing.
    Finished,
    /// Nothing: something failed.
    Failed,
}

/// The answer to what a submission waits for.
#[derive(Debug)]
pub enum SubmitReply {
    Done,
    Failed(String),
    Facts(PrFacts),
    Opened(PrInfo),
    Linked(NativeStackOutcome),
}

/// The contents of a `Submission`.
#[verifier::ext_equal]
pub struct SubmitView {
    pub state: StackView,
    /// The branches from the bottom up.
    pub branches: Seq<Seq<char>>,
    pub target: TargetView,
    pub wish: WishView,
    pub phase: SubmitPhase,
    /// The branch in work.
    pub at: int,
    /// How the pull request in work is brought in line.
    pub plan: Option<PrPlanView>,
    /// The addresses of the pull requests.
    pub urls: Seq<Seq<char>>,
    /// The numbers of the pull requests.
    pub numbers: Seq<u64>,
    pub receipts: Seq<JsonView>,
    pub error: Option<ErrorView>,
}

/// Why native stacks do not apply in a fork workflow.
pub open spec fn fork_refusal() -> Seq<char> {
    "fork and cross-repository pull requests are not supported by GitHub native stacks"@
}

/// The receipt for the native stack of a fork workflow.
pub open spec fn fork_receipt(branches: Seq<Seq<char>>, numbers: Seq<u64>) -> JsonView {
    let base = no_fields().insert("cmd"@, JsonView::Text("submit"@)).insert(
        "native_stack_action"@,
        JsonView::Text("not_applicable"@),
    ).insert("native_stack_reason"@, JsonView::Text(fork_refusal()));
    let named = if branches.len() == 0 {
        base
    } else {
        base.insert("branches"@, text_list(branches))
    };
    JsonView::Object(
        if numbers.len() == 0 {
            named
        } else {
            named.insert("pull_requests"@, number_list(numbers))
        },
    )
}

/// The receipt where linking failed.
pub open spec fn unlinked_receipt(
    branches: Seq<Seq<char>>,
    numbers: Seq<u64>,
    text: Seq<char>,
) -> JsonView {
    JsonView::Object(
        no_fields().insert("cmd"@, JsonView::Text("submit"@)).insert(
            "branches"@,
            text_list(branches),
        ).insert("pull_requests"@, number_list(numbers)).insert(
            "native_stack_action"@,
            JsonView::Text("error"@),
        ).insert("native_stack_error"@, JsonView::Text(text)),
    )
}

/// The receipt for a submitted branch.
pub open spec fn submit_receipt_view(
    branch: Seq<char>,
    number: Option<u64>,
    url: Seq<char>,
    target: TargetView,
) -> JsonView {
    JsonView::Object(
        no_fields().insert("cmd"@, JsonView::Text("submit"@)).insert(
            "branch"@,
            JsonView::Text(branch),
        ).insert("pr_number"@, number_or_null(number)).insert(
            "pr_url"@,
            JsonView::Text(url),
        ).insert("remote"@, JsonView::Text(target.remote)).insert(
            "repo"@,
            text_or_null(target.repo),
        ).insert("fork_repo"@, text_or_null(target.fork_repo)),
    )
}

/// The receipt for a submitted branch.
pub fn submit_receipt(branch: &str, pr_number: Option<u64>, url: &str, target: &PushTarget) -> (r:
    Json)
    ensures
        r@ == submit_receipt_view(branch@, pr_number, url@, target@),
{
    JsonObject::new().field("cmd", Json::text("submit")).field(
        "branch",
        Json::text(branch),
    ).field("pr_number", Json::opt_number(pr_number)).field("pr_url", Json::text(url)).field(
        "remote",
        Json::text(&target.remote),
    ).field("repo", Json::opt_text(&target.repo)).field(
        "fork_repo",
        Json::opt_text(&target.fork_repo),
    ).done()
}

impl SubmitView {
    /// The parts of a submission that fit together.
    pub open spec fn wf(self) -> bool {
        &&& 0 <= self.at <= self.branches.len()
        &&& match self.phase {
            SubmitPhase::Fetch | SubmitPhase::Look => self.at < self.branches.len(),
            SubmitPhase::Update => self.at < self.branches.len()
                && (self.plan matches Some(PrPlanView::Update { .. }))
                && self.state.managed(self.branches[self.at]),
            SubmitPhase::Create => self.at < self.branches.len()
                && (self.plan matches Some(PrPlanView::Create { .. }))
                && self.state.managed(self.branches[self.at]),
            _ => true,
        }
        &&& match self.phase {
            SubmitPhase::Fetch | SubmitPhase::Push => self.urls.len() == 0 && self.numbers.len()
                == 0 && self.receipts.len() == 0,
            SubmitPhase::Look | SubmitPhase::Update | SubmitPhase::Create => self.urls.len()
                == self.at && self.numbers.len() == self.at && self.receipts.len() == self.at,
            SubmitPhase::Save | SubmitPhase::Link => self.urls.len() == self.branches.len()
                && self.numbers.len() == self.branches.len() && self.receipts.len()
                == self.branches.len(),
            SubmitPhase::Finished => self.urls.len() == self.branches.len() && self.numbers.len()
                == self.branches.len() && self.receipts.len() == self.branches.len() + 1,
            SubmitPhase::Failed => true,
        }
        &&& self.numbers.len() <= self.branches.len()
        &&& forall|j: int|
            0 <= j < self.numbers.len() ==> self.state.managed(#[trigger] self.branches[j])
                && self.state.branches[self.branches[j]].pr_number is Some
        &&& self.phase == SubmitPhase::Failed <==> self.error is Some
    }

    /// The submission stopped.
    pub open spec fn failed(self, e: ErrorView) -> SubmitView {
        SubmitView { phase: SubmitPhase::Failed, error: Some(e), ..self }
    }

    /// The submission with the pull request of the branch in work recorded; on to the next.
    pub open spec fn recorded(self, number: u64, url: Seq<char>) -> SubmitView {
        SubmitView {
            state: with_pull(self.state, self.branches[self.at], number),
            urls: self.urls.push(url),
            numbers: self.numbers.push(number),
            receipts: self.receipts.push(
                submit_receipt_view(self.branches[self.at], Some(number), url, self.target),
            ),
            at: self.at + 1,
            plan: None,
            phase: if self.at + 1 < self.branches.len() {
                SubmitPhase::Look
            } else {
                SubmitPhase::Save
            },
            ..self
        }
    }

    /// The submission with what is known of the pull request of the branch in work.
    pub open spec fn planned(self, facts: PrFacts) -> SubmitView {
        let b = self.branches[self.at];
        if !self.state.managed(b) {
            self.failed(ErrorView::BranchNotInStack(b))
        } else {
            SubmitView {
                state: match facts.existing {
                    Some(pr) => with_pull(self.state, b, pr.number),
                    None => self.state,
                },
                plan: Some(
                    pr_plan(
                        self.state,
                        b,
                        self.state.branches[b].parent,
                        head_of(self.target, b),
                        self.wish,
                        facts,
                    ),
                ),
                phase: if facts.existing is Some {
                    SubmitPhase::Update
                } else {
                    SubmitPhase::Create
                },
                ..self
            }
        }
    }

    /// The end of a submission, with the receipt for the native stack.
    pub open spec fn linked(self, receipt: JsonView) -> SubmitView {
        SubmitView { phase: SubmitPhase::Finished, receipts: self.receipts.push(receipt), ..self }
    }

    /// The submission after a reply. Nothing is asked of GitHub before all branches are pushed;
    /// the first failure up to the saving ends it. A native stack that cannot be linked does not
    /// undo it. A reply that does not fit changes nothing.
    pub open spec fn step(self, reply: SubmitReply) -> SubmitView {
        match (self.phase, reply) {
            (SubmitPhase::Finished, _) | (SubmitPhase::Failed, _) => self,
            (SubmitPhase::Link, SubmitReply::Failed(t)) => self.linked(
                unlinked_receipt(self.branches, self.numbers, t@),
            ),
            (_, SubmitReply::Failed(t)) => self.failed(ErrorView::Other(t@)),
            (SubmitPhase::Fetch, SubmitReply::Done) => if self.at + 1 < self.branches.len() {
                SubmitView { at: self.at + 1, ..self }
            } else {
                SubmitView { at: 0, phase: SubmitPhase::Push, ..self }
            },
            (SubmitPhase::Push, SubmitReply::Done) => SubmitView {
                at: 0,
                phase: if self.branches.len() > 0 {
                    SubmitPhase::Look
                } else {
                    SubmitPhase::Save
                },
                ..self
            },
            (SubmitPhase::Look, SubmitReply::Facts(facts)) => self.planned(facts),
            (SubmitPhase::Update, SubmitReply::Done) => match self.plan {
                Some(PrPlanView::Update { number, url, .. }) => self.recorded(number, url),
                _ => self,
            },
            (SubmitPhase::Create, SubmitReply::Opened(pr)) => self.recorded(pr.number, pr.url@),
            (SubmitPhase::Save, SubmitReply::Done) => if self.target.fork_workflow {
                self.linked(fork_receipt(self.branches, self.numbers))
            } else {
                SubmitView { phase: SubmitPhase::Link, ..self }
            },
            (SubmitPhase::Link, SubmitReply::Linked(o)) => self.linked(
                outcome_receipt("submit"@, self.branches, self.numbers, o),
            ),
            (_, _) => self,
        }
    }
}

/// A submission stays in order.
pub proof fn law_submit_keeps_order(v: SubmitView, reply: SubmitReply)
    requires
        v.wf(),
    ensures
        v.step(reply).wf(),
{
}

/// Nothing is recorded, and no pull request is looked at, before all branches are pushed: only
/// the answer that the push was done leads further, and a failure leaves the stack as it is.
pub proof fn law_push_comes_first(v: SubmitView, reply: SubmitReply)
    requires
        v.wf(),
        v.phase == SubmitPhase::Fetch || v.phase == SubmitPhase::Push,
    ensures
        v.step(reply).state == v.state,
        v.step(reply).numbers.len() == 0,
        reply is Failed ==> v.step(reply).phase == SubmitPhase::Failed,
        v.step(reply).phase == SubmitPhase::Fetch || v.step(reply).phase == SubmitPhase::Push
            || v.step(reply).phase == SubmitPhase::Failed || (v.phase == SubmitPhase::Push
            && reply is Done),
{
}

/// A submission records pull requests and nothing else.
pub proof fn law_submit_records_only_pull_requests(v: SubmitView, reply: SubmitReply, b: Seq<char>)
    requires
        v.wf(),
    ensures
        v.step(reply).state == v.state.with_branches(v.step(reply).state.branches),
        v.step(reply).state.managed(b) <==> v.state.managed(b),
        v.state.managed(b) ==> v.step(reply).state.branches[b] == (MetaView {
            pr_number: v.step(reply).state.branches[b].pr_number,
            ..v.state.branches[b]
        }),
{
    assert(v.state.with_branches(v.state.branches) =~= v.state);
}

/// Before the stack is saved every submitted branch has a pull request.
pub proof fn law_every_branch_gets_a_pull_request(v: SubmitView, b: Seq<char>)
    requires
        v.wf(),
        v.phase == SubmitPhase::Save || v.phase == SubmitPhase::Link || v.phase
            == SubmitPhase::Finished,
        v.branches.contains(b),
    ensures
        v.state.managed(b),
        v.state.branches[b].pr_number is Some,
{
    let j = v.branches.index_of(b);
    assert(v.branches[j] == b);
}

/// A submission's first state.
pub open spec fn fresh_submission(
    s: StackView,
    current: Seq<char>,
    target: TargetView,
    wish: WishView,
) -> SubmitView {
    let branches = submitted(s.path_to_trunk(current), s.trunk);
    SubmitView {
        state: s,
        branches,
        target,
        wish,
        phase: if branches.len() > 0 {
            SubmitPhase::Fetch
        } else {
            SubmitPhase::Push
        },
        at: 0,
        plan: None,
        urls: Seq::empty(),
        numbers: Seq::empty(),
        receipts: Seq::empty(),
        error: None,
    }
}

#[derive(Debug)]
struct SubmitData {
    state: StackState,
    branches: Vec<String>,
    target: PushTarget,
    wish: PrWish,
    phase: SubmitPhase,
    at: usize,
    plan: Option<PrPlan>,
    urls: Vec<String>,
    numbers: Vec<u64>,
    receipts: Vec<Json>,
    error: Option<EzError>,
}

impl View for SubmitData {
    type V = SubmitView;

    closed spec fn view(&self) -> SubmitView {
        SubmitView {
            state: self.state@,
            branches: views(self.branches@),
            target: self.target@,
            wish: self.wish@,
            phase: self.phase,
            at: self.at as int,
            plan: match self.plan {
                Some(p) => Some(p@),
                None => None,
            },
            urls: views(self.urls@),
            numbers: self.numbers@,
            receipts: receipt_views(self.receipts@),
            error: match self.error {
                Some(e) => Some(e@),
                None => None,
            },
        }
    }
}

impl SubmitData {
    fn fail(&mut self, e: EzError)
        ensures
            final(self)@ == old(self)@.failed(e@),
    {
        self.phase = SubmitPhase::Failed;
        self.error = Some(e);
    }

    fn record(&mut self, pr_number: u64, url: String)
        requires
            old(self)@.wf(),
            old(self)@.at < old(self)@.branches.len(),
            old(self)@.state.managed(old(self)@.branches[old(self)@.at]),
        ensures
            final(self)@ == old(self)@.recorded(pr_number, url@),
    {
        let ghost v = self@;
        let branch: String = self.branches[self.at].clone();
        assert(v.branches[v.at] == branch@);
        let receipt: Json = submit_receipt(&branch, Some(pr_number), &url, &self.target);
        let ghost j = receipt@;
        let ghost u = url@;
        match self.state.set_pr_number(&branch, Some(pr_number)) {
            Ok(_) => {},
            Err(_) => {},
        }
        self.urls.push(url);
        self.numbers.push(pr_number);
        self.receipts.push(receipt);
        assert(self.at < self.branches.len());
        self.at = self.at + 1;
        self.plan = None;
        if self.at < self.branches.len() {
            self.phase = SubmitPhase::Look;
        } else {
            self.phase = SubmitPhase::Save;
        }
        proof {
            assert(views(self.urls@) =~= v.urls.push(u));
            assert(receipt_views(self.receipts@) =~= v.receipts.push(j));
            assert(self@ =~= v.recorded(pr_number, u));
        }
    }

    fn look(&mut self, facts: PrFacts)
        requires
            old(self)@.wf(),
            old(self)@.phase == SubmitPhase::Look,
        ensures
            final(self)@ == old(self)@.planned(facts),
    {
        let ghost v = self@;
        let branch: String = self.branches[self.at].clone();
        assert(v.branches[v.at] == branch@);
        let parent: String = match self.state.get_branch(&branch) {
            Ok(m) => m.parent.clone(),
            Err(e) => {
                self.fail(e);
                return;
            },
        };
        let head: String = head_ref(&self.target, &branch);
        match push_or_update_pr(&mut self.state, &branch, &parent, &head, &self.wish, &facts) {
            Err(e) => self.fail(e),
            Ok(p) => {
                self.plan = Some(p);
                if facts.existing.is_some() {
                    self.phase = SubmitPhase::Update;
                } else {
                    self.phase = SubmitPhase::Create;
                }
                assert(self@ =~= v.planned(facts));
            },
        }
    }

    fn link(&mut self, receipt: Json)
        ensures
            final(self)@ == old(self)@.linked(receipt@),
    {
        let ghost v = self@;
        let ghost j = receipt@;
        self.receipts.push(receipt);
        self.phase = SubmitPhase::Finished;
        assert(receipt_views(self.receipts@) =~= v.receipts.push(j));
        assert(self@ =~= v.linked(j));
    }

    fn step(&mut self, reply: SubmitReply)
        requires
            old(self)@.wf(),
        ensures
            final(self)@ == old(self)@.step(reply),
    {
        let ghost v = self@;
        let phase: SubmitPhase = self.phase;
        assert(v.branches.len() == self.branches.len());
        match (phase, reply) {
            (SubmitPhase::Finished, _) | (SubmitPhase::Failed, _) => {},
            (SubmitPhase::Link, SubmitReply::Failed(t)) => {
                let receipt: Json = error_receipt_value(
                    "submit",
                    &self.branches,
                    &self.numbers,
                    &t,
                );
                self.link(receipt);
            },
            (_, SubmitReply::Failed(t)) => self.fail(EzError::Other(t)),
            (SubmitPhase::Fetch, SubmitReply::Done) => {
                assert(self.at < self.branches.len());
                if self.at + 1 < self.branches.len() {
                    self.at = self.at + 1;
                } else {
                    self.at = 0;
                    self.phase = SubmitPhase::Push;
                }
            },
            (SubmitPhase::Push, SubmitReply::Done) => {
                self.at = 0;
                if self.branches.len() > 0 {
                    self.phase = SubmitPhase::Look;
                } else {
                    self.phase = SubmitPhase::Save;
                }
            },
            (SubmitPhase::Look, SubmitReply::Facts(facts)) => self.look(facts),
            (SubmitPhase::Update, SubmitReply::Done) => {
                let done: Option<(u64, String)> = match &self.plan {
                    Some(PrPlan::Update { number, url, .. }) => Some((*number, url.clone())),
                    _ => None,
                };
                if let Some((n, url)) = done {
                    self.record(n, url);
                }
            },
            (SubmitPhase::Create, SubmitReply::Opened(pr)) => self.record(pr.number, pr.url),
            (SubmitPhase::Save, SubmitReply::Done) => if self.target.fork_workflow {
                let reason: String = String::from_str(
                    "fork and cross-repository pull requests are not supported by GitHub native stacks",
                );
                let outcome = NativeStackOutcome::NotApplicable { reason };
                let receipt: Json = receipt_value(
                    "submit",
                    &self.branches,
                    &self.numbers,
                    &outcome,
                );
                self.link(receipt);
            } else {
                self.phase = SubmitPhase::Link;
            },
            (SubmitPhase::Link, SubmitReply::Linked(o)) => {
                let receipt: Json = receipt_value("submit", &self.branches, &self.numbers, &o);
                self.link(receipt);
            },
            (_, _) => {},
        }
        assert(self@ =~= v.step(reply));
    }
}

/// A submission in progress.
#[derive(Debug)]
pub struct Submission {
    data: SubmitData,
}

impl View for Submission {
    type V = SubmitView;

    closed spec fn view(&self) -> SubmitView {
        self.data@
    }
}

/// What the user asks of a submission.
#[derive(Debug)]
pub struct SubmitRequest {
    pub draft: bool,
    pub no_draft: bool,
    pub title: Option<String>,
    /// The body, from a text or a file.
    pub body: Option<String>,
    pub remote: Option<String>,
    pub repo: Option<String>,
    pub fork_repo: Option<String>,
}

impl SubmitRequest {
    /// What is asked of the pull requests.
    pub open spec fn wish(self, configured: Option<bool>) -> WishView {
        WishView {
            draft: self.draft || (!self.no_draft && configured == Some(true)),
            title: opt_view(self.title),
            body: opt_view(self.body),
            body_set: self.body is Some,
        }
    }

    /// Where branches are pushed.
    pub open spec fn target(self, s: StackView) -> TargetView {
        target_of(s, opt_view(self.remote), opt_view(self.repo), opt_view(self.fork_repo))
    }
}

/// Starts the submission of the stack from the trunk up to `current`, which must be a recorded
/// branch other than the trunk.
pub fn run(state: &StackState, current: &str, request: SubmitRequest) -> (r: Result<
    Submission,
    EzError,
>)
    ensures
        match r {
            Ok(v) => {
                &&& current@ != state@.trunk
                &&& state@.managed(current@)
                &&& v@ == fresh_submission(
                    state@,
                    current@,
                    request.target(state@),
                    request.wish(state@.draft),
                )
            },
            Err(e) => if current@ == state@.trunk {
                e@ == ErrorView::OnTrunk
            } else {
                !state@.managed(current@) && e@ == ErrorView::BranchNotInStack(current@)
            },
        },
{
    if state.is_trunk(current) {
        return Err(EzError::OnTrunk);
    }
    if !state.is_managed(current) {
        return Err(EzError::BranchNotInStack(current.to_owned()));
    }
    let path: Vec<String> = state.path_to_trunk(current);
    let branches: Vec<String> = branches_to_submit(&path, &state.trunk);
    let target: PushTarget = push_target(
        state,
        &request.remote,
        &request.repo,
        &request.fork_repo,
    );
    let wish = PrWish {
        draft: resolve_draft(request.draft, request.no_draft, state.draft),
        body_set: request.body.is_some(),
        title: request.title,
        body: request.body,
    };
    let phase: SubmitPhase = if branches.len() > 0 {
        SubmitPhase::Fetch
    } else {
        SubmitPhase::Push
    };
    let data = SubmitData {
        state: state.copy(),
        branches,
        target,
        wish,
        phase,
        at: 0,
        plan: None,
        urls: Vec::new(),
        numbers: Vec::new(),
        receipts: Vec::new(),
        error: None,
    };
    proof {
        assert(views(data.branches@).len() == data.branches.len());
        assert(views(data.urls@) =~= Seq::<Seq<char>>::empty());
        assert(data.numbers@ =~= Seq::<u64>::empty());
        assert(receipt_views(data.receipts@) =~= Seq::<JsonView>::empty());
        assert(data@ =~= fresh_submission(
            state@,
            current@,
            request.target(state@),
            request.wish(state@.draft),
        ));
    }
    Ok(Submission { data })
}

impl Submission {
    #[verifier::type_invariant]
    spec fn in_order(self) -> bool {
        self.data@.wf()
    }

    /// The submission after a reply to what it waits for.
    pub fn step(self, reply: SubmitReply) -> (r: Submission)
        ensures
            r@ == self@.step(reply),
    {
        proof {
            use_type_invariant(&self);
            law_submit_keeps_order(self@, reply);
        }
        let mut data = self.data;
        data.step(reply);
        Submission { data }
    }

    /// What the submission waits for.
    pub fn phase(&self) -> (r: SubmitPhase)
        ensures
            r == self@.phase,
    {
        self.data.phase
    }

    /// The branches from the bottom up.
    pub fn branches(&self) -> (r: Vec<String>)
        ensures
            views(r@) == self@.branches,
    {
        copy_all(&self.data.branches)
    }

    /// The branch in work, if any.
    pub fn branch(&self) -> (r: Option<&String>)
        ensures
            match r {
                Some(b) => self@.at < self@.branches.len() && b@ == self@.branches[self@.at],
                None => self@.at >= self@.branches.len(),
            },
    {
        proof {
            use_type_invariant(&self);
        }
        assert(self@.branches.len() == self.data.branches.len());
        if self.data.at < self.data.branches.len() {
            Some(&self.data.branches[self.data.at])
        } else {
            None
        }
    }

    /// Where branches are pushed, and where their pull requests are.
    pub fn target(&self) -> (r: &PushTarget)
        ensures
            r@ == self@.target,
    {
        &self.data.target
    }

    /// How the pull request in work is brought in line.
    pub fn plan(&self) -> (r: Option<&PrPlan>)
        ensures
            match r {
                Some(p) => self@.plan == Some(p@),
                None => self@.plan is None,
            },
    {
        match &self.data.plan {
            Some(p) => Some(p),
            None => None,
        }
    }

    /// The stack so far.
    pub fn state(&self) -> (r: &StackState)
        ensures
            r@ == self@.state,
    {
        &self.data.state
    }

    /// The pull requests so far.
    pub fn numbers(&self) -> (r: Vec<u64>)
        ensures
            r@ == self@.numbers,
    {
        copy_numbers(&self.data.numbers)
    }

    /// The addresses of the pull requests and the receipts, or why the submission stopped.
    pub fn finish(self) -> (r: Result<(Vec<String>, Vec<Json>), EzError>)
        ensures
            match r {
                Ok(p) => self@.error is None && views(p.0@) == self@.urls && receipt_views(p.1@)
                    == self@.receipts,
                Err(e) => self@.error == Some(e@),
            },
    {
        match self.data.error {
            Some(e) => Err(e),
            None => Ok((self.data.urls, self.data.receipts)),
        }
    }
}

/// What is submitted is the path down to the trunk turned round, so that a parent comes before its
/// children, without the trunk.
pub proof fn law_submission_goes_upwards(
    b: Seq<char>,
    rest: Seq<Seq<char>>,
    trunk: Seq<char>,
)
    ensures
        submitted(Seq::<Seq<char>>::empty(), trunk).len() == 0,
        b != trunk ==> submitted(seq![b] + rest, trunk) == submitted(rest, trunk).push(b),
        b == trunk ==> submitted(seq![b] + rest, trunk) == submitted(rest, trunk),
        forall|x: Seq<char>| #[trigger]
            submitted(rest, trunk).contains(x) ==> rest.contains(x) && x != trunk,
        forall|x: Seq<char>| #[trigger]
            rest.contains(x) && x != trunk ==> submitted(rest, trunk).contains(x),
    decreases rest.len(),
{
    reveal(Seq::filter);
    assert(Seq::<Seq<char>>::empty().reverse() =~= Seq::<Seq<char>>::empty());
    assert((seq![b] + rest).reverse() =~= rest.reverse().push(b));
    assert(rest.reverse().push(b).drop_last() =~= rest.reverse());
    let keep = |x: Seq<char>| x != trunk;
    assert forall|x: Seq<char>| #[trigger]
        rest.contains(x) && x != trunk implies submitted(rest, trunk).contains(x) by {
        let i = choose|i: int| 0 <= i < rest.len() && rest[i] == x;
        assert(rest.reverse()[rest.len() - 1 - i] == x);
        rest.reverse().lemma_filter_contains(keep, rest.len() - 1 - i);
    }
    if rest.len() > 0 {
        let low = rest.drop_first();
        law_submission_goes_upwards(rest[0], low, trunk);
        assert(seq![rest[0]] + low =~= rest);
        assert forall|x: Seq<char>| #[trigger] submitted(rest, trunk).contains(x) implies (
        rest.contains(x) && x != trunk) by {
            let whole = submitted(rest, trunk);
            let below = submitted(low, trunk);
            let i = choose|i: int| 0 <= i < whole.len() && whole[i] == x;
            if i < below.len() {
                assert(below[i] == x);
                assert(below.contains(x));
                let j = choose|j: int| 0 <= j < low.len() && low[j] == x;
                assert(rest[j + 1] == x);
            } else {
                assert(x == rest[0]);
            }
        }
    }
}

/// Each branch is fetched in turn, all are pushed at once, and each is looked at in turn.
pub proof fn law_submission_goes_branch_by_branch(v: SubmitView)
    requires
        v.wf(),
    ensures
        v.phase == SubmitPhase::Fetch && v.at + 1 < v.branches.len() ==> v.step(
            SubmitReply::Done,
        ).phase == SubmitPhase::Fetch && v.step(SubmitReply::Done).at == v.at + 1,
        v.phase == SubmitPhase::Fetch && v.at + 1 == v.branches.len() ==> v.step(
            SubmitReply::Done,
        ).phase == SubmitPhase::Push,
        v.phase == SubmitPhase::Push && v.branches.len() > 0 ==> v.step(SubmitReply::Done).phase
            == SubmitPhase::Look && v.step(SubmitReply::Done).at == 0,
        v.phase == SubmitPhase::Save && v.target.fork_workflow ==> v.step(SubmitReply::Done).phase
            == SubmitPhase::Finished,
        v.phase == SubmitPhase::Save && !v.target.fork_workflow ==> v.step(
            SubmitReply::Done,
        ).phase == SubmitPhase::Link,
        forall|t: String|
            v.phase == SubmitPhase::Link ==> (#[trigger] v.step(SubmitReply::Failed(t))).phase
                == SubmitPhase::Finished,
{
}

/// The pull request of each branch is opened onto the recorded parent, or updated, and its number
/// is recorded for that branch alone.
pub proof fn law_each_pull_request_is_recorded(
    v: SubmitView,
    facts: PrFacts,
    pr: PrInfo,
    k: Seq<char>,
)
    requires
        v.wf(),
    ensures
        v.phase == SubmitPhase::Look && v.state.branches.contains_key(v.branches[v.at]) ==> ({
            let b = v.branches[v.at];
            let w = v.step(SubmitReply::Facts(facts));
            &&& facts.existing is None ==> w.phase == SubmitPhase::Create && w.state == v.state && (
            w.plan matches Some(PrPlanView::Create { base, .. }) && base
                == v.state.branches[b].parent)
            &&& facts.existing is Some ==> w.phase == SubmitPhase::Update && w.state.branches[b].pr_number
                == Some(facts.existing->0.number)
            &&& facts.existing is Some ==> w.step(SubmitReply::Done).numbers == v.numbers.push(
                facts.existing->0.number,
            )
            &&& facts.existing is Some ==> w.step(SubmitReply::Done).urls == v.urls.push(
                facts.existing->0.url@,
            )
            &&& w.at == v.at
            &&& k != b ==> w.state.branches[k] == v.state.branches[k]
        }),
        v.phase == SubmitPhase::Look && !v.state.branches.contains_key(v.branches[v.at]) ==> v.step(
            SubmitReply::Facts(facts),
        ).error == Some(ErrorView::BranchNotInStack(v.branches[v.at])),
        v.phase == SubmitPhase::Create ==> ({
            let b = v.branches[v.at];
            let w = v.step(SubmitReply::Opened(pr));
            &&& w.state.branches[b].pr_number == Some(pr.number)
            &&& w.state.branches[b].parent == v.state.branches[b].parent
            &&& w.numbers == v.numbers.push(pr.number)
            &&& w.urls == v.urls.push(pr.url@)
            &&& w.at == v.at + 1
            &&& w.phase == SubmitPhase::Look <==> v.at + 1 < v.branches.len()
            &&& w.phase == SubmitPhase::Save <==> v.at + 1 == v.branches.len()
            &&& k != b ==> w.state.branches[k] == v.state.branches[k]
        }),
{
}

/// A draft is wished where it is asked for, and by default only where neither form was asked for
/// and the setting says so.
pub proof fn law_submitted_draft_goes_by_the_request_first(
    r: SubmitRequest,
    configured: Option<bool>,
)
    ensures
        r.draft ==> r.wish(configured).draft,
        !r.draft && r.no_draft ==> !r.wish(configured).draft,
        !r.draft && !r.no_draft ==> (r.wish(configured).draft <==> configured == Some(true)),
        r.wish(configured).body_set <==> r.body is Some,
        r.wish(configured).title == opt_view(r.title),
        r.wish(configured).body == opt_view(r.body),
{
}

/// A submission begins with the record as it is, on the branches of the path below the current
/// one.
pub proof fn law_submission_begins_with_its_path(
    s: StackView,
    current: Seq<char>,
    target: TargetView,
    wish: WishView,
    b: Seq<char>,
)
    ensures
        ({
            let v = fresh_submission(s, current, target, wish);
            &&& v.state == s
            &&& v.target == target
            &&& v.wish == wish
            &&& v.at == 0
            &&& v.error is None
            &&& v.urls.len() == 0 && v.numbers.len() == 0 && v.receipts.len() == 0
            &&& v.branches.contains(b) <==> s.path_to_trunk(current).contains(b) && b != s.trunk
            &&& v.branches.len() > 0 ==> v.phase == SubmitPhase::Fetch
        }),
{
    law_submission_goes_upwards(b, s.path_to_trunk(current), s.trunk);
}

/// A submission goes where its arguments say, and otherwise where the record says.
pub proof fn law_submission_goes_where_told(r: SubmitRequest, s: StackView)
    ensures
        r.remote is Some ==> r.target(s).remote == r.remote->0@,
        r.remote is None ==> r.target(s).remote == s.remote,
        r.repo is None ==> r.target(s).repo == s.repo,
        r.repo is Some ==> r.target(s).repo == Some(r.repo->0@),
        r.fork_repo is None ==> r.target(s).fork_repo == s.fork_repo,
        r.fork_repo is Some ==> r.target(s).fork_repo == Some(r.fork_repo->0@),
{
}

/// A receipt of a submission names the branch, its pull request and where it was pushed.
pub proof fn law_submit_receipt_tells_the_pull_request(
    branch: Seq<char>,
    number: Option<u64>,
    url: Seq<char>,
    target: TargetView,
)
    ensures
        submit_receipt_view(branch, number, url, target) matches JsonView::Object(m) && {
            &&& m["branch"@] == JsonView::Text(branch)
            &&& number matches Some(n) ==> m["pr_number"@] == JsonView::Number(n)
            &&& m["pr_url"@] == JsonView::Text(url)
            &&& m["remote"@] == JsonView::Text(target.remote)
        },
{
    reveal_strlit("cmd");
    reveal_strlit("branch");
    reveal_strlit("pr_number");
    reveal_strlit("pr_url");
    reveal_strlit("remote");
    reveal_strlit("repo");
    reveal_strlit("fork_repo");
    assert("cmd"@.len() == 3);
    assert("branch"@.len() == 6);
    assert("pr_number"@.len() == 9);
    assert("pr_url"@.len() == 6);
    assert("remote"@.len() == 6);
    assert("repo"@.len() == 4);
    assert("fork_repo"@.len() == 9);
    assert("branch"@[0] == 'b');
    assert("pr_url"@[0] == 'p');
    assert("remote"@[0] == 'r');
    assert("pr_number"@[0] == 'p');
    assert("fork_repo"@[0] == 'f');
}

} // verus!
