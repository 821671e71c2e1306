//! Pushing a branch and bringing its pull request in line.

use crate::branch_map::MetaView;
use crate::cmd::mutation_guard::{ScopeReceiptData, ScopeView};
use crate::cmd::pr_link::{pr_address, pr_url};
use crate::cmd::pushing::{fresh_push, Pushing};
use crate::error::{ErrorView, EzError};
use crate::github::PrInfo;
use crate::json::{no_fields, number_or_null, text_list, text_or_null, Json, JsonObject, JsonView};
use crate::stack::{StackState, StackView};
use crate::stack_body::{
    ancestor_views, build_stack_body, stack_body, AncestorPr, AncestorView,
};
use crate::text::{copy_opt, decimal, number, opt_view, pieces, same, split, views};
use vstd::prelude::*;
use vstd::string::*;

verus! {

/// A recorded branch as an ancestor of a pull request. It has an address where it has a pull
/// request and the repository is known.
pub open spec fn ancestor_of(s: StackView, b: Seq<char>, repo: Seq<char>) -> AncestorView {
    let pr_number = if s.managed(b) {
        s.branches[b].pr_number
    } else {
        None
    };
    AncestorView {
        branch: b,
        pr_number,
        pr_url: match pr_number {
            Some(n) => if repo.len() == 0 {
                None
            } else {
                Some(pr_address(repo, n))
            },
            None => None,
        },
    }
}

/// The branches strictly between the ends of a path, the last first.
pub open spec fn inner_reversed(path: Seq<Seq<char>>) -> Seq<Seq<char>> {
    if path.len() < 2 {
        Seq::empty()
    } else {
        path.subrange(1, path.len() - 1).reverse()
    }
}

/// The branches between `branch` and the trunk, from the trunk up.
pub open spec fn ancestors_below(s: StackView, branch: Seq<char>, repo: Seq<char>) -> Seq<
    AncestorView,
> {
    inner_reversed(s.path_to_trunk(branch)).map_values(|b: Seq<char>| ancestor_of(s, b, repo))
}

/// The branches between `branch` and the trunk, from the trunk up, with their pull requests.
pub fn stack_ancestors(state: &StackState, branch: &str, repo: &str) -> (r: Vec<AncestorPr>)
    ensures
        ancestor_views(r@) == ancestors_below(state@, branch@, repo@),
{
    let path: Vec<String> = state.path_to_trunk(branch);
    let ghost inner = inner_reversed(views(path@));
    let ghost all = ancestors_below(state@, branch@, repo@);
    assert(views(path@).len() == path.len());
    let mut out: Vec<AncestorPr> = Vec::new();
    if path.len() < 2 {
        assert(ancestor_views(out@) =~= all);
        return out;
    }
    let mut i: usize = path.len() - 1;
    assert(ancestor_views(out@) =~= all.take(0));
    while i > 1
        invariant
            1 <= i < path.len(),
            inner == inner_reversed(views(path@)),
            all == ancestors_below(state@, branch@, repo@),
            views(path@) == state@.path_to_trunk(branch@),
            all.len() == path.len() - 2,
            ancestor_views(out@) == all.take(path.len() - 1 - i),
        decreases i,
    {
        let ghost held = ancestor_views(out@);
        i -= 1;
        let b: &String = &path[i];
        let pr_number: Option<u64> = match state.branches.get(b) {
            Some(m) => m.pr_number,
            None => None,
        };
        let url: Option<String> = match pr_number {
            Some(n) => if repo.is_empty() {
                None
            } else {
                Some(pr_url(repo, n))
            },
            None => None,
        };
        let a = AncestorPr { branch: b.clone(), pr_number, pr_url: url };
        let ghost av = a@;
        out.push(a);
        proof {
            let k = path.len() - 2 - i;
            assert(inner[k] == views(path@)[i as int]);
            assert(views(path@)[i as int] == b@);
            assert(all[k] == ancestor_of(state@, b@, repo@));
            assert(av =~= ancestor_of(state@, b@, repo@));
            assert(ancestor_views(out@) =~= held.push(av));
            assert(all.take(k + 1) =~= all.take(k).push(all[k]));
        }
    }
    assert(all.take(path.len() - 2) =~= all);
    out
}

/// Whether a new pull request is a draft: as the flags say, else as configured.
pub fn resolve_draft(draft: bool, no_draft: bool, configured: Option<bool>) -> (r: bool)
    ensures
        r == (draft || (!no_draft && configured == Some(true))),
{
    if draft {
        true
    } else if no_draft {
        false
    } else {
        match configured {
            Some(b) => b,
            None => false,
        }
    }
}

/// Whether a push leaves pull requests alone: as the flags say, else as configured.
pub fn resolve_no_pr(no_pr: bool, pr: bool, configured: Option<bool>) -> (r: bool)
    ensures
        r == (no_pr || (!pr && configured == Some(true))),
{
    if no_pr {
        true
    } else if pr {
        false
    } else {
        match configured {
            Some(b) => b,
            None => false,
        }
    }
}

/// Where branches are pushed, and where their pull requests are.
#[derive(Debug)]
pub struct PushTarget {
    pub remote: String,
    pub repo: Option<String>,
    pub fork_repo: Option<String>,
    pub fork_workflow: bool,
}

/// The contents of a `PushTarget`.
#[verifier::ext_equal]
pub struct TargetView {
    pub remote: Seq<char>,
    pub repo: Option<Seq<char>>,
    pub fork_repo: Option<Seq<char>>,
    pub fork_workflow: bool,
}

impl View for PushTarget {
    type V = TargetView;

    open spec fn view(&self) -> TargetView {
        TargetView {
            remote: self.remote@,
            repo: opt_view(self.repo),
            fork_repo: opt_view(self.fork_repo),
            fork_workflow: self.fork_workflow,
        }
    }
}

/// The first of two that is there.
pub open spec fn either(a: Option<Seq<char>>, b: Option<Seq<char>>) -> Option<Seq<char>> {
    if a is Some {
        a
    } else {
        b
    }
}

/// The settings with what overrides them.
pub open spec fn target_of(
    s: StackView,
    remote: Option<Seq<char>>,
    repo: Option<Seq<char>>,
    fork_repo: Option<Seq<char>>,
) -> TargetView {
    let remote = match remote {
        Some(r) => r,
        None => s.remote,
    };
    TargetView {
        remote,
        repo: either(repo, s.repo),
        fork_repo: either(fork_repo, s.fork_repo),
        fork_workflow: s.fork_workflow_with(
            remote,
            either(repo, s.repo),
            either(fork_repo, s.fork_repo),
        ),
    }
}

/// Where branches are pushed and pull requests are opened: the settings with what overrides
/// them.
pub fn push_target(
    state: &StackState,
    remote: &Option<String>,
    repo: &Option<String>,
    fork_repo: &Option<String>,
) -> (r: PushTarget)
    ensures
        r@ == target_of(state@, opt_view(*remote), opt_view(*repo), opt_view(*fork_repo)),
{
    let remote: String = match remote {
        Some(x) => x.clone(),
        None => state.remote.clone(),
    };
    let repo: Option<String> = match repo {
        Some(x) => Some(x.clone()),
        None => copy_opt(&state.repo),
    };
    let fork_repo: Option<String> = match fork_repo {
        Some(x) => Some(x.clone()),
        None => copy_opt(&state.fork_repo),
    };
    let fork_workflow: bool = {
        let base: Option<&str> = match &repo {
            Some(x) => Some(x.as_str()),
            None => None,
        };
        let fork: Option<&str> = match &fork_repo {
            Some(x) => Some(x.as_str()),
            None => None,
        };
        state.is_fork_workflow_with(&remote, base, fork)
    };
    PushTarget { remote, repo, fork_repo, fork_workflow }
}

/// The head of a branch's pull request: in a fork workflow with the owner of the fork.
pub open spec fn head_of(t: TargetView, branch: Seq<char>) -> Seq<char> {
    match t.fork_repo {
        Some(f) => if t.fork_workflow {
            pieces(f, '/')[0] + ":"@ + branch
        } else {
            branch
        },
        None => branch,
    }
}

/// The head of a branch's pull request.
pub fn head_ref(target: &PushTarget, branch: &str) -> (r: String)
    ensures
        r@ == head_of(target@, branch@),
{
    match &target.fork_repo {
        Some(f) => if target.fork_workflow {
            let parts: Vec<String> = split(f, '/');
            assert(views(parts@).len() == parts.len());
            assert(pieces(f@, '/').len() > 0);
            assert(views(parts@)[0] == parts@[0]@);
            parts[0].clone().concat(":").concat(branch)
        } else {
            branch.to_owned()
        },
        None => branch.to_owned(),
    }
}

/// What the user asks of a push.
#[derive(Debug)]
pub struct PushRequest {
    /// The base of the pull request, in place of the recorded parent.
    pub base: Option<String>,
    pub no_pr: bool,
    pub pr: bool,
    pub draft: bool,
    pub no_draft: bool,
    pub title: Option<String>,
    /// The body, from a text or a file.
    pub body: Option<String>,
    pub remote: Option<String>,
    pub repo: Option<String>,
    pub fork_repo: Option<String>,
}

impl PushRequest {
    /// What is asked of the pull request.
    pub open spec fn wish(self, configured: Option<bool>) -> WishView {
        WishView {
            draft: self.draft || (!self.no_draft && configured == Some(true)),
            title: opt_view(self.title),
            body: opt_view(self.body),
            body_set: self.body is Some,
        }
    }

    /// Where the branch is pushed.
    pub open spec fn target(self, s: StackView) -> TargetView {
        target_of(s, opt_view(self.remote), opt_view(self.repo), opt_view(self.fork_repo))
    }
}

/// Starts to push `current`, a recorded branch other than the trunk. The base of its pull request
/// is its parent where none is given; `scope` is what a commit before the push said.
pub fn run(
    state: &StackState,
    current: &str,
    request: PushRequest,
    scope: ScopeReceiptData,
) -> (r: Result<Pushing, EzError>)
    ensures
        match r {
            Ok(p) => {
                &&& current@ != state@.trunk
                &&& state@.managed(current@)
                &&& p@ == fresh_push(
                    state@,
                    current@,
                    match request.base {
                        Some(b) => b@,
                        None => state@.branches[current@].parent,
                    },
                    request.target(state@),
                    request.wish(state@.draft),
                    request.no_pr || (!request.pr && state@.no_pr == Some(true)),
                    scope@,
                )
            },
            Err(e) => if current@ == state@.trunk {
                e@ == ErrorView::OnTrunk
            } else {
                !state@.managed(current@) && e@ == ErrorView::BranchNotInStack(current@)
            },
        },
{
    let recorded: String = match crate::cmd::parent::run(state, current) {
        Err(e) => return Err(e),
        Ok(p) => p,
    };
    let target: PushTarget = push_target(
        state,
        &request.remote,
        &request.repo,
        &request.fork_repo,
    );
    let leave_prs: bool = resolve_no_pr(request.no_pr, request.pr, state.no_pr);
    let wish = PrWish {
        draft: resolve_draft(request.draft, request.no_draft, state.draft),
        body_set: request.body.is_some(),
        title: request.title,
        body: request.body,
    };
    let parent: String = match request.base {
        Some(b) => b,
        None => recorded,
    };
    Ok(Pushing::begin(state, current, parent, target, wish, leave_prs, scope))
}

/// What is known of a branch's pull request before it is brought in line.
#[derive(Debug)]
pub struct PrFacts {
    /// The pull request that the branch has.
    pub existing: Option<PrInfo>,
    /// Whether the parent's tip is an ancestor of the branch.
    pub parent_is_ancestor: bool,
    /// The subject of the first commit on the branch, if it has one.
    pub subject: Option<String>,
    /// The repository; empty where it is not known.
    pub repo_name: String,
}

/// What the user asks of a pull request.
#[derive(Debug)]
pub struct PrWish {
    pub draft: bool,
    pub title: Option<String>,
    pub body: Option<String>,
    /// Whether the body was given, not defaulted.
    pub body_set: bool,
}

/// The contents of a `PrWish`.
#[verifier::ext_equal]
pub struct WishView {
    pub draft: bool,
    pub title: Option<Seq<char>>,
    pub body: Option<Seq<char>>,
    pub body_set: bool,
}

impl View for PrWish {
    type V = WishView;

    open spec fn view(&self) -> WishView {
        WishView {
            draft: self.draft,
            title: opt_view(self.title),
            body: opt_view(self.body),
            body_set: self.body_set,
        }
    }
}

/// What happens to the base of an existing pull request.
#[derive(Clone, Copy, Debug, PartialEq, Eq, Structural)]
pub enum BasePlan {
    /// It is right.
    Keep,
    /// It becomes the parent.
    Change,
    /// It is left alone, for the branch does not stand on its recorded parent.
    Stale,
}

/// How a branch's pull request is brought in line.
#[derive(Debug)]
pub enum PrPlan {
    Update {
        number: u64,
        url: String,
        base_plan: BasePlan,
        /// The new title and body, where any of them changes.
        edit: Option<(Option<String>, Option<String>)>,
    },
    Create { title: String, body: String, base: String, head: String, draft: bool },
}

/// The contents of a `PrPlan`.
#[verifier::ext_equal]
pub enum PrPlanView {
    Update {
        number: u64,
        url: Seq<char>,
        base_plan: BasePlan,
        edit: Option<(Option<Seq<char>>, Option<Seq<char>>)>,
    },
    Create { title: Seq<char>, body: Seq<char>, base: Seq<char>, head: Seq<char>, draft: bool },
}

/// The contents of an edit.
pub open spec fn edit_view(e: Option<(Option<String>, Option<String>)>) -> Option<
    (Option<Seq<char>>, Option<Seq<char>>),
> {
    match e {
        Some(p) => Some((opt_view(p.0), opt_view(p.1))),
        None => None,
    }
}

impl View for PrPlan {
    type V = PrPlanView;

    open spec fn view(&self) -> PrPlanView {
        match *self {
            PrPlan::Update { number, url, base_plan, edit } => PrPlanView::Update {
                number,
                url: url@,
                base_plan,
                edit: edit_view(edit),
            },
            PrPlan::Create { title, body, base, head, draft } => PrPlanView::Create {
                title: title@,
                body: body@,
                base: base@,
                head: head@,
                draft,
            },
        }
    }
}

/// The body that a pull request gets, without the stack.
pub open spec fn raw_body(wish: WishView) -> Seq<char> {
    match wish.body {
        Some(b) => b,
        None => "Part of a stack managed by `ez`."@,
    }
}

/// What happens to the base of an existing pull request.
pub open spec fn base_plan(base: Seq<char>, parent: Seq<char>, parent_is_ancestor: bool) -> BasePlan {
    if base == parent {
        BasePlan::Keep
    } else if parent_is_ancestor {
        BasePlan::Change
    } else {
        BasePlan::Stale
    }
}

/// How the pull request of `branch` is brought in line.
pub open spec fn pr_plan(
    s: StackView,
    branch: Seq<char>,
    parent: Seq<char>,
    head: Seq<char>,
    wish: WishView,
    facts: PrFacts,
) -> PrPlanView {
    let body = stack_body(ancestors_below(s, branch, facts.repo_name@), raw_body(wish));
    match facts.existing {
        Some(pr) => PrPlanView::Update {
            number: pr.number,
            url: pr.url@,
            base_plan: base_plan(pr.base@, parent, facts.parent_is_ancestor),
            edit: if wish.body_set {
                Some((wish.title, Some(body)))
            } else if wish.title is Some {
                Some((wish.title, None))
            } else {
                None
            },
        },
        None => PrPlanView::Create {
            title: match (wish.title, facts.subject) {
                (Some(t), _) => t,
                (None, Some(m)) => m@,
                (None, None) => branch,
            },
            body,
            base: parent,
            head,
            draft: wish.draft,
        },
    }
}

/// A stack in which a branch has that pull request.
pub open spec fn with_pull(s: StackView, branch: Seq<char>, n: u64) -> StackView {
    s.with_branches(
        s.branches.insert(branch, MetaView { pr_number: Some(n), ..s.branches[branch] }),
    )
}

/// Plans how the pull request of `branch` is brought in line, and records the one that it has.
/// The base of an existing pull request is changed only where the branch stands on its parent,
/// its body only where one was given. A new one shows the stack below it.
pub fn push_or_update_pr(
    state: &mut StackState,
    branch: &str,
    parent: &str,
    head: &str,
    wish: &PrWish,
    facts: &PrFacts,
) -> (r: Result<PrPlan, EzError>)
    ensures
        match facts.existing {
            Some(pr) => if old(state)@.managed(branch@) {
                &&& final(state)@ == with_pull(old(state)@, branch@, pr.number)
                &&& r matches Ok(p)
                &&& p@ == pr_plan(old(state)@, branch@, parent@, head@, wish@, *facts)
            } else {
                &&& final(state)@ == old(state)@
                &&& r matches Err(e)
                &&& e@ == ErrorView::BranchNotInStack(branch@)
            },
            None => {
                &&& final(state)@ == old(state)@
                &&& r matches Ok(p)
                &&& p@ == pr_plan(old(state)@, branch@, parent@, head@, wish@, *facts)
            },
        },
{
    let ancestors: Vec<AncestorPr> = stack_ancestors(state, branch, &facts.repo_name);
    let raw: &str = match &wish.body {
        Some(b) => b.as_str(),
        None => "Part of a stack managed by `ez`.",
    };
    match &facts.existing {
        Some(pr) => {
            match state.set_pr_number(branch, Some(pr.number)) {
                Ok(_) => {},
                Err(e) => return Err(e),
            }
            let base_plan: BasePlan = if same(&pr.base, parent) {
                BasePlan::Keep
            } else if facts.parent_is_ancestor {
                BasePlan::Change
            } else {
                BasePlan::Stale
            };
            let edit: Option<(Option<String>, Option<String>)> = if wish.body_set {
                Some((copy_opt(&wish.title), Some(build_stack_body(&ancestors, raw))))
            } else if wish.title.is_some() {
                Some((copy_opt(&wish.title), None))
            } else {
                None
            };
            Ok(PrPlan::Update { number: pr.number, url: pr.url.clone(), base_plan, edit })
        },
        None => {
            let title: String = match (&wish.title, &facts.subject) {
                (Some(t), _) => t.clone(),
                (None, Some(m)) => m.clone(),
                (None, None) => branch.to_owned(),
            };
            Ok(
                PrPlan::Create {
                    title,
                    body: build_stack_body(&ancestors, raw),
                    base: parent.to_owned(),
                    head: head.to_owned(),
                    draft: wish.draft,
                },
            )
        },
    }
}

/// The base of an existing pull request is changed only to a parent on which the branch stands,
/// and its body only where one was given.
pub proof fn law_update_respects_manual_edits(
    s: StackView,
    branch: Seq<char>,
    parent: Seq<char>,
    head: Seq<char>,
    wish: WishView,
    facts: PrFacts,
)
    requires
        facts.existing is Some,
    ensures
        pr_plan(s, branch, parent, head, wish, facts) matches PrPlanView::Update { base_plan: b, edit, .. }
            && (b == BasePlan::Change <==> facts.parent_is_ancestor
            && facts.existing->0.base@ != parent) && ((edit matches Some(e) && e.1 is Some)
            <==> wish.body_set),
{
}

/// What is said of the base of an existing pull request. `failure` tells why it could not be
/// changed, if so.
pub open spec fn base_note_text(
    number: u64,
    parent: Seq<char>,
    branch: Seq<char>,
    plan: BasePlan,
    failure: Option<Seq<char>>,
) -> Option<Seq<char>> {
    let n = decimal(number as nat);
    match plan {
        BasePlan::Keep => None,
        BasePlan::Change => Some(
            match failure {
                Some(e) => "Push succeeded but PR #"@ + n + " base could not be updated to `"@
                    + parent + "`: "@ + e,
                None => "Updated PR #"@ + n + " base to `"@ + parent + "`"@,
            },
        ),
        BasePlan::Stale => Some(
            "PR #"@ + n + " base not updated: `"@ + parent + "` is not an ancestor of `"@ + branch
                + "` (stack metadata may be stale — run `ez sync` or update manually)"@,
        ),
    }
}

/// What is said of the base of an existing pull request.
pub fn base_note(
    pr_number: u64,
    parent: &str,
    branch: &str,
    plan: BasePlan,
    failure: &Option<String>,
) -> (r: Option<String>)
    ensures
        opt_view(r) == base_note_text(pr_number, parent@, branch@, plan, opt_view(*failure)),
{
    let digits: String = number(pr_number);
    match plan {
        BasePlan::Keep => None,
        BasePlan::Change => match failure {
            Some(e) => Some(
                String::from_str("Push succeeded but PR #").concat(&digits).concat(
                    " base could not be updated to `",
                ).concat(parent).concat("`: ").concat(e),
            ),
            None => Some(
                String::from_str("Updated PR #").concat(&digits).concat(" base to `").concat(
                    parent,
                ).concat("`"),
            ),
        },
        BasePlan::Stale => Some(
            String::from_str("PR #").concat(&digits).concat(" base not updated: `").concat(
                parent,
            ).concat("` is not an ancestor of `").concat(branch).concat(
                "` (stack metadata may be stale — run `ez sync` or update manually)",
            ),
        ),
    }
}

/// What is said of an edited pull request. `failure` tells why it could not be edited, if so.
pub fn edit_note(pr_number: u64, with_body: bool, failure: &Option<String>) -> (r: String)
    ensures
        r@ == match *failure {
            Some(e) => "Push succeeded but PR #"@ + decimal(pr_number as nat) + (if with_body {
                " could not be updated: "@
            } else {
                " title could not be updated: "@
            }) + e@,
            None => "Updated PR #"@ + decimal(pr_number as nat) + (if with_body {
                ""@
            } else {
                " title"@
            }),
        },
{
    let digits: String = number(pr_number);
    match failure {
        Some(e) => {
            let what: &str = if with_body {
                " could not be updated: "
            } else {
                " title could not be updated: "
            };
            String::from_str("Push succeeded but PR #").concat(&digits).concat(what).concat(e)
        },
        None => {
            let what: &str = if with_body {
                ""
            } else {
                " title"
            };
            String::from_str("Updated PR #").concat(&digits).concat(what)
        },
    }
}

/// The receipt for a push. The address is missing where pull requests were left alone.
pub open spec fn pushed_receipt(
    current: Seq<char>,
    pr_number: Option<u64>,
    url: Option<Seq<char>>,
    created: bool,
    scope: ScopeView,
) -> JsonView {
    JsonView::Object(
        no_fields().insert("cmd"@, JsonView::Text("push"@)).insert(
            "branch"@,
            JsonView::Text(current),
        ).insert("pr_number"@, number_or_null(pr_number)).insert(
            "pr_url"@,
            text_or_null(url),
        ).insert("created"@, JsonView::Bool(created)).insert(
            "scope_defined"@,
            JsonView::Bool(scope.scope_defined),
        ).insert("scope_mode"@, text_or_null(scope.scope_mode)).insert(
            "out_of_scope_count"@,
            JsonView::Number(scope.out_of_scope_files.len() as u64),
        ).insert("out_of_scope_files"@, text_list(scope.out_of_scope_files)),
    )
}

/// The receipt for a push.
pub fn push_receipt(
    current: &str,
    pr_number: Option<u64>,
    url: &Option<String>,
    created: bool,
    scope: &ScopeReceiptData,
) -> (r: Json)
    ensures
        r@ == pushed_receipt(current@, pr_number, opt_view(*url), created, scope@),
{
    assert(views(scope.out_of_scope_files@).len() == scope.out_of_scope_files.len());
    JsonObject::new().field("cmd", Json::text("push")).field("branch", Json::text(current)).field(
        "pr_number",
        Json::opt_number(pr_number),
    ).field("pr_url", Json::opt_text(url)).field("created", Json::Bool(created)).field(
        "scope_defined",
        Json::Bool(scope.scope_defined),
    ).field("scope_mode", Json::opt_text(&scope.scope_mode)).field(
        "out_of_scope_count",
        Json::count(scope.out_of_scope_files.len()),
    ).field("out_of_scope_files", Json::texts(&scope.out_of_scope_files)).done()
}

/// The ancestors told of are the branches strictly between the branch and the end of its path, the
/// lowest first, each with its recorded pull request and, where the repository is known, its
/// address.
pub proof fn law_ancestors_lie_between_branch_and_trunk(
    s: StackView,
    branch: Seq<char>,
    repo: Seq<char>,
)
    ensures
        ({
            let path = s.path_to_trunk(branch);
            let r = ancestors_below(s, branch, repo);
            &&& path.len() < 2 ==> r.len() == 0
            &&& path.len() >= 2 ==> r.len() == path.len() - 2
            &&& forall|i: int|
                #![trigger r[i]]
                0 <= i < r.len() ==> {
                    let b = path[path.len() - 2 - i];
                    &&& r[i].branch == b
                    &&& s.branches.contains_key(b) ==> r[i].pr_number == s.branches[b].pr_number
                    &&& !s.branches.contains_key(b) ==> r[i].pr_number is None
                    &&& r[i].pr_url is Some <==> r[i].pr_number is Some && repo.len() > 0
                    &&& r[i].pr_url is Some ==> r[i].pr_url->0 == "https://github.com/"@ + repo
                        + "/pull/"@ + decimal(r[i].pr_number->0 as nat)
                }
        }),
{
}

/// A push goes where its arguments say, and for each that is not given, where the record says.
pub proof fn law_arguments_come_before_the_record(
    s: StackView,
    remote: Option<Seq<char>>,
    repo: Option<Seq<char>>,
    fork_repo: Option<Seq<char>>,
)
    ensures
        ({
            let t = target_of(s, remote, repo, fork_repo);
            &&& remote is Some ==> Some(t.remote) == remote
            &&& remote is None ==> t.remote == s.remote
            &&& repo is Some ==> t.repo == repo
            &&& repo is None ==> t.repo == s.repo
            &&& fork_repo is Some ==> t.fork_repo == fork_repo
            &&& fork_repo is None ==> t.fork_repo == s.fork_repo
        }),
{
}

/// Only in a fork workflow with a known fork is a head named by the fork's owner, the part of its
/// name before the first slash; elsewhere it is the branch.
pub proof fn law_head_names_the_fork_owner(
    t: TargetView,
    branch: Seq<char>,
    owner: Seq<char>,
    name: Seq<char>,
)
    ensures
        !t.fork_workflow || t.fork_repo is None ==> head_of(t, branch) == branch,
        t.fork_workflow && t.fork_repo == Some(owner + "/"@ + name) && !owner.contains('/')
            ==> head_of(t, branch) == owner + ":"@ + branch,
{
    if t.fork_workflow && t.fork_repo == Some(owner + "/"@ + name) && !owner.contains('/') {
        reveal_strlit("/");
        let f = owner + "/"@ + name;
        assert forall|i: int| 0 <= i < owner.len() implies f[i] != '/' by {
            assert(owner.contains(owner[i]));
        }
        crate::text::lemma_first_at(f, '/', owner.len() as int);
        assert(f.take(owner.len() as int) =~= owner);
    }
}

/// A pull request is opened onto the parent, from the head given, as a draft where wished, with
/// the title wished, or else the subject of the first commit, or else the branch's name; its body
/// begins with the one wished.
pub proof fn law_new_pull_request_is_as_wished(
    s: StackView,
    branch: Seq<char>,
    parent: Seq<char>,
    head: Seq<char>,
    wish: WishView,
    facts: PrFacts,
)
    requires
        facts.existing is None,
    ensures
        pr_plan(s, branch, parent, head, wish, facts) matches PrPlanView::Create {
            title,
            body,
            base,
            head: from,
            draft,
        } && base == parent && from == head && draft == wish.draft && (wish.title is Some
            ==> Some(title) == wish.title) && (wish.title is None && facts.subject is Some
            ==> title == facts.subject->0@) && (wish.title is None && facts.subject is None
            ==> title == branch) && (wish.body is Some ==> body.take(wish.body->0.len() as int)
            == wish.body->0),
{
    let body = stack_body(ancestors_below(s, branch, facts.repo_name@), raw_body(wish));
    crate::stack_body::law_body_comes_before_the_stack(
        ancestors_below(s, branch, facts.repo_name@),
        Seq::empty(),
        raw_body(wish),
    );
    assert(body.take(raw_body(wish).len() as int) == raw_body(wish));
}

/// A pull request that is open is updated by its own number; its base is kept where it is the
/// parent, and left stale where the parent is no ancestor; without a title or a body wished, it is
/// not edited.
pub proof fn law_open_pull_request_is_updated(
    s: StackView,
    branch: Seq<char>,
    parent: Seq<char>,
    head: Seq<char>,
    wish: WishView,
    facts: PrFacts,
)
    requires
        facts.existing is Some,
    ensures
        pr_plan(s, branch, parent, head, wish, facts) matches PrPlanView::Update {
            number,
            url,
            base_plan: b,
            edit,
        } && number == facts.existing->0.number && url == facts.existing->0.url@ && (
        b == BasePlan::Keep <==> facts.existing->0.base@ == parent) && (b == BasePlan::Stale
            <==> facts.existing->0.base@ != parent && !facts.parent_is_ancestor) && (edit is None
            <==> !wish.body_set && wish.title is None) && (edit matches Some(e) ==> e.0
            == wish.title),
{
}

/// Recording a pull request changes the number of that branch alone.
pub proof fn law_pull_request_is_recorded_once(
    s: StackView,
    branch: Seq<char>,
    n: u64,
    k: Seq<char>,
)
    requires
        s.branches.contains_key(branch),
    ensures
        with_pull(s, branch, n).branches[branch].pr_number == Some(n),
        with_pull(s, branch, n).branches[branch].parent == s.branches[branch].parent,
        with_pull(s, branch, n).branches[branch].parent_head == s.branches[branch].parent_head,
        with_pull(s, branch, n).branches[branch].scope == s.branches[branch].scope,
        with_pull(s, branch, n).branches.dom() == s.branches.dom(),
        k != branch ==> with_pull(s, branch, n).branches[k] == s.branches[k],
        with_pull(s, branch, n).trunk == s.trunk,
{
    assert(with_pull(s, branch, n).branches.dom() =~= s.branches.dom());
}

/// A draft is wished where it is asked for, and by default only where neither form was asked for
/// and the setting says so.
pub proof fn law_draft_goes_by_the_request_first(r: PushRequest, configured: Option<bool>)
    ensures
        r.draft ==> r.wish(configured).draft,
        !r.draft && r.no_draft ==> !r.wish(configured).draft,
        !r.draft && !r.no_draft ==> (r.wish(configured).draft <==> configured == Some(true)),
        r.wish(configured).body_set <==> r.body is Some,
        r.wish(configured).title == opt_view(r.title),
        r.wish(configured).body == opt_view(r.body),
{
}

/// A push goes where its arguments say, and otherwise where the record says.
pub proof fn law_push_goes_where_told(r: PushRequest, s: StackView)
    ensures
        r.remote is Some ==> r.target(s).remote == r.remote->0@,
        r.remote is None ==> r.target(s).remote == s.remote,
        r.repo is None ==> r.target(s).repo == s.repo,
        r.repo is Some ==> r.target(s).repo == Some(r.repo->0@),
        r.fork_repo is None ==> r.target(s).fork_repo == s.fork_repo,
        r.fork_repo is Some ==> r.target(s).fork_repo == Some(r.fork_repo->0@),
{
}

/// A receipt of a push names the branch and its pull request, whether that is new, and the files
/// outside the scope with their number.
pub proof fn law_push_receipt_tells_the_pull_request(
    current: Seq<char>,
    pr_number: Option<u64>,
    url: Option<Seq<char>>,
    created: bool,
    scope: ScopeView,
)
    ensures
        pushed_receipt(current, pr_number, url, created, scope) matches JsonView::Object(m) && {
            &&& m["cmd"@] == JsonView::Text("push"@)
            &&& m["branch"@] == JsonView::Text(current)
            &&& pr_number matches Some(n) ==> m["pr_number"@] == JsonView::Number(n)
            &&& pr_number is None ==> m["pr_number"@] == JsonView::Null
            &&& url matches Some(u) ==> m["pr_url"@] == JsonView::Text(u)
            &&& m["created"@] == JsonView::Bool(created)
            &&& m["scope_defined"@] == JsonView::Bool(scope.scope_defined)
            &&& m["out_of_scope_count"@] == JsonView::Number(scope.out_of_scope_files.len() as u64)
            &&& m["out_of_scope_files"@] == text_list(scope.out_of_scope_files)
        },
{
    reveal_strlit("cmd");
    reveal_strlit("branch");
    reveal_strlit("pr_number");
    reveal_strlit("pr_url");
    reveal_strlit("created");
    reveal_strlit("scope_defined");
    reveal_strlit("scope_mode");
    reveal_strlit("out_of_scope_count");
    reveal_strlit("out_of_scope_files");
    assert("cmd"@.len() == 3);
    assert("branch"@.len() == 6);
    assert("pr_number"@.len() == 9);
    assert("pr_url"@.len() == 6);
    assert("created"@.len() == 7);
    assert("scope_defined"@.len() == 13);
    assert("scope_mode"@.len() == 10);
    assert("out_of_scope_count"@.len() == 18);
    assert("out_of_scope_files"@.len() == 18);
    assert("branch"@[0] == 'b');
    assert("pr_url"@[0] == 'p');
    assert("out_of_scope_count"@[13] == 'c');
    assert("out_of_scope_files"@[13] == 'f');
}

} // verus!
