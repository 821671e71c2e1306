//! Moving branches onto the current tips of their parents.

use crate::branch_map::MetaView;
use crate::cmd::cascade::{fresh_cascade, Cascade};
use crate::cmd::preflight::{
    facts_fault, inspect_candidate, inspected, BranchPreflight, CandidateFacts, PreflightView,
    RebaseCandidate, RebaseView,
};
use crate::cmd::rebase_conflict::{conflict_receipt, receipt_value};
use crate::cmd::track::{infer_parent, inferred, no_base_text};
use crate::error::{error_view, ErrorView, EzError};
use crate::git::{GitView, RebaseConflict};
use crate::json::{no_fields, Json, JsonObject, JsonView};
use crate::stack::{topo, StackState, StackView};
use crate::text::{
    decimal, join, joined, lines, lines_of, number, prefix, same, short, trim, trimmed, views,
};
use vstd::prelude::*;
use vstd::string::*;

verus! {

/// The merge base of `parent` and `branch`, if there is one with a name.
pub open spec fn common_base(g: GitView, branch: Seq<char>, parent: Seq<char>) -> Option<Seq<char>> {
    match g.base(parent, branch) {
        Some(b) => if trimmed(b).len() > 0 {
            Some(trimmed(b))
        } else {
            None
        },
        None => None,
    }
}

/// The commit after which the commits of `branch` itself begin, and whether it had to be derived
/// from git. The recorded parent commit counts only while git confirms it: a parent tip that the
/// branch already holds, or a merge base above the recorded commit, takes its place, and the
/// merge base does wherever the recorded commit is no part of the branch.
pub open spec fn replay_base(
    g: GitView,
    branch: Seq<char>,
    parent: Seq<char>,
    recorded: Seq<char>,
) -> (Seq<char>, bool) {
    let merge_base = common_base(g, branch, parent);
    if g.tip(parent) is Some && trimmed(g.tip(parent)->0) != recorded && g.ancestor(
        trimmed(g.tip(parent)->0),
        branch,
    ) {
        (trimmed(g.tip(parent)->0), true)
    } else if recorded.len() > 0 && g.ancestor(recorded, branch) {
        match merge_base {
            Some(base) => if recorded != base && g.ancestor(recorded, base) {
                (base, true)
            } else {
                (recorded, false)
            },
            None => (recorded, false),
        }
    } else {
        match merge_base {
            Some(base) => (base, true),
            None => (recorded, false),
        }
    }
}

/// The commit after which the commits of `branch` itself begin, and whether it had to be derived
/// from git rather than taken from the record.
pub fn effective_old_base(
    git: &GitView,
    branch: &str,
    parent: &str,
    stored_parent_head: &str,
) -> (r: (String, bool))
    ensures
        (r.0@, r.1) == replay_base(*git, branch@, parent@, stored_parent_head@),
{
    if let Some(tip) = git.rev_parse(parent) {
        let tip: &str = trim(&tip);
        if !same(tip, stored_parent_head) && git.is_ancestor(tip, branch) {
            return (tip.to_owned(), true);
        }
    }
    let merge_base: Option<String> = match git.merge_base(parent, branch) {
        Some(base) => {
            let base: &str = trim(&base);
            if base.is_empty() {
                None
            } else {
                Some(base.to_owned())
            }
        },
        None => None,
    };
    if !stored_parent_head.is_empty() && git.is_ancestor(stored_parent_head, branch) {
        if let Some(base) = merge_base {
            if same(stored_parent_head, &base) {
                return (stored_parent_head.to_owned(), false);
            }
            if git.is_ancestor(stored_parent_head, &base) {
                return (base, true);
            }
        }
        return (stored_parent_head.to_owned(), false);
    }
    if let Some(base) = merge_base {
        return (base, true);
    }
    (stored_parent_head.to_owned(), false)
}

/// Where git knows a merge base and reports it as part of the branch, the commits replayed begin
/// after a commit of the branch: never after one that the branch does not hold. A base that was
/// not derived is the recorded one.
pub proof fn law_replay_begins_in_branch(
    g: GitView,
    branch: Seq<char>,
    parent: Seq<char>,
    recorded: Seq<char>,
)
    requires
        common_base(g, branch, parent) matches Some(base) && g.ancestor(base, branch),
    ensures
        g.ancestor(replay_base(g, branch, parent, recorded).0, branch),
        !replay_base(g, branch, parent, recorded).1 ==> replay_base(
            g,
            branch,
            parent,
            recorded,
        ).0 == recorded,
{
}

/// Why a branch could not be restacked.
#[derive(Debug)]
pub enum RestackFailureKind {
    /// The rebase stopped on a conflict, and was taken back.
    Conflict,
    /// The rebase could not even be tried, or git refused it.
    Error(String),
}

/// A branch that was left where it was.
#[derive(Debug)]
pub struct RestackFailure {
    pub branch: String,
    pub parent: String,
    pub kind: RestackFailureKind,
}

/// The contents of a `RestackFailure`; no message stands for a conflict.
#[verifier::ext_equal]
pub struct FailureView {
    pub branch: Seq<char>,
    pub parent: Seq<char>,
    pub message: Option<Seq<char>>,
}

impl View for RestackFailure {
    type V = FailureView;

    open spec fn view(&self) -> FailureView {
        FailureView {
            branch: self.branch@,
            parent: self.parent@,
            message: match self.kind {
                RestackFailureKind::Conflict => None,
                RestackFailureKind::Error(m) => Some(m@),
            },
        }
    }
}

/// The contents of a list of failures.
pub open spec fn failure_views(s: Seq<RestackFailure>) -> Seq<FailureView> {
    s.map_values(|f: RestackFailure| f@)
}

impl FailureView {
    /// The kind of failure in one word.
    pub open spec fn reason(self) -> Seq<char> {
        match self.message {
            None => "conflict"@,
            Some(_) => "error"@,
        }
    }

    /// The failure in one line: the first line of its message.
    pub open spec fn detail(self) -> Seq<char> {
        match self.message {
            None => "rebase conflict"@,
            Some(m) => if lines_of(m).len() > 0 {
                lines_of(m)[0]
            } else {
                m
            },
        }
    }
}

impl RestackFailure {
    /// The kind of failure in one word.
    pub fn reason(&self) -> (r: &'static str)
        ensures
            r@ == self@.reason(),
    {
        match self.kind {
            RestackFailureKind::Conflict => "conflict",
            RestackFailureKind::Error(_) => "error",
        }
    }

    /// The failure in one line: the first line of its message.
    pub fn detail(&self) -> (r: String)
        ensures
            r@ == self@.detail(),
    {
        match &self.kind {
            RestackFailureKind::Conflict => String::from_str("rebase conflict"),
            RestackFailureKind::Error(m) => {
                let all: Vec<String> = lines(m);
                assert(views(all@).len() == all.len());
                if all.len() > 0 {
                    assert(views(all@)[0] == all@[0]@);
                    all[0].clone()
                } else {
                    m.clone()
                }
            },
        }
    }
}

/// How many branches moved, which, and which were left alone.
#[derive(Debug)]
pub struct RestackReport {
    pub restacked: usize,
    pub restacked_branches: Vec<String>,
    pub failures: Vec<RestackFailure>,
}

/// The branches of failures.
pub open spec fn failed_names(s: Seq<RestackFailure>) -> Seq<Seq<char>> {
    Seq::new(s.len(), |i: int| s[i].branch@)
}

/// The error that a report ends its command with: one where a branch was left alone.
pub open spec fn left_behind(r: RestackReport) -> Option<ErrorView> {
    if r.failures@.len() > 0 {
        Some(
            ErrorView::RestackIncomplete {
                count: r.failures@.len(),
                branches: joined(failed_names(r.failures@), ", "@),
            },
        )
    } else {
        None
    }
}

impl RestackReport {
    /// The error that the report ends its command with: one where a branch was left alone.
    pub fn left_behind(&self) -> (r: Option<EzError>)
        ensures
            error_view(r) == left_behind(*self),
    {
        if self.is_clean() {
            None
        } else {
            Some(
                EzError::RestackIncomplete {
                    count: self.failures.len(),
                    branches: self.branch_list(),
                },
            )
        }
    }

    /// Whether no branch was left alone.
    pub fn is_clean(&self) -> (r: bool)
        ensures
            r == (self.failures.len() == 0),
    {
        self.failures.len() == 0
    }

    /// The branches left alone, with commas between them.
    pub fn branch_list(&self) -> (r: String)
        ensures
            r@ == joined(failed_names(self.failures@), ", "@),
    {
        name_list(&self.failures)
    }
}

/// The branches of failures, with commas between them.
fn name_list(failures: &Vec<RestackFailure>) -> (r: String)
    ensures
        r@ == joined(failed_names(failures@), ", "@),
{
    let mut names: Vec<String> = Vec::new();
    let mut i: usize = 0;
    while i < failures.len()
        invariant
            i <= failures.len(),
            names.len() == i,
            forall|j: int| 0 <= j < i ==> (#[trigger] names@[j])@ == failures@[j].branch@,
        decreases failures.len() - i,
    {
        names.push(failures[i].branch.clone());
        i += 1;
    }
    assert(views(names@) =~= failed_names(failures@));
    join(&names, ", ")
}

/// How a restack is to be done.
#[derive(Clone, Copy, Debug, PartialEq, Eq, Structural)]
pub struct RestackOptions {
    /// Whether merge commits may be straightened out.
    pub force: bool,
}

/// The receipt for branches that were left alone.
pub open spec fn incomplete_receipt(cmd: Seq<char>, r: RestackReport) -> JsonView {
    JsonView::Object(
        no_fields().insert("cmd"@, JsonView::Text(cmd)).insert(
            "action"@,
            JsonView::Text("restack_incomplete"@),
        ).insert("restacked"@, JsonView::Number(r.restacked as u64)).insert(
            "failed"@,
            JsonView::List(
                Seq::new(r.failures@.len(), |i: int| failure_receipt(r.failures@[i]@)),
            ),
        ),
    )
}

/// What a receipt says of one branch that was left alone.
pub open spec fn failure_receipt(f: FailureView) -> JsonView {
    JsonView::Object(
        no_fields().insert("branch"@, JsonView::Text(f.branch)).insert(
            "parent"@,
            JsonView::Text(f.parent),
        ).insert("reason"@, JsonView::Text(f.reason())).insert(
            "detail"@,
            JsonView::Text(f.detail()),
        ),
    )
}

/// The error and the receipt for branches that were left alone.
pub fn incomplete_error(cmd: &str, report: &RestackReport) -> (r: (EzError, Json))
    ensures
        r.0@ == (ErrorView::RestackIncomplete {
            count: report.failures@.len(),
            branches: joined(failed_names(report.failures@), ", "@),
        }),
        r.1@ == incomplete_receipt(cmd@, *report),
{
    let mut failed: Vec<Json> = Vec::new();
    let mut i: usize = 0;
    while i < report.failures.len()
        invariant
            i <= report.failures.len(),
            failed.len() == i,
            forall|j: int|
                0 <= j < i ==> crate::json::json_view(#[trigger] failed@[j]) == failure_receipt(
                    report.failures@[j]@,
                ),
        decreases report.failures.len() - i,
    {
        let f: &RestackFailure = &report.failures[i];
        let entry: Json = JsonObject::new().field("branch", Json::text(&f.branch)).field(
            "parent",
            Json::text(&f.parent),
        ).field("reason", Json::text(f.reason())).field("detail", Json::Text(f.detail())).done();
        assert(entry@ == failure_receipt(f@));
        failed.push(entry);
        i += 1;
    }
    assert(Seq::new(failed@.len(), |j: int| crate::json::json_view(failed@[j])) =~= Seq::new(
        report.failures@.len(),
        |j: int| failure_receipt(report.failures@[j]@),
    ));
    let receipt: Json = JsonObject::new().field("cmd", Json::text(cmd)).field(
        "action",
        Json::text("restack_incomplete"),
    ).field("restacked", Json::count(report.restacked)).field("failed", Json::list(failed)).done();
    (
        EzError::RestackIncomplete {
            count: report.failures.len(),
            branches: report.branch_list(),
        },
        receipt,
    )
}

/// What a restack is waiting for.
#[derive(Clone, Copy, Debug, PartialEq, Eq, Structural)]
pub enum RestackPhase {
    /// What git says of the branch and its parent.
    Observe,
    /// What a rebase of the branch would do.
    Inspect,
    /// The branch being set onto its parent's tip, which already holds its commits.
    Align,
    /// The rebase of the branch.
    Rebase,
    /// The clean-up after a rebase that stopped.
    Recover,
    /// Nothing.
    Finished,
}

/// The answer to what a restack asked for.
#[derive(Debug)]
pub enum RestackReply {
    Observed {
        git: GitView,
        /// Why the branch's worktree must be left alone, if so.
        guard: Option<String>,
        /// What git says where the new parent does not resolve.
        unresolved: String,
    },
    Inspected(CandidateFacts),
    /// The branch was moved; where its tip is now.
    Moved { after: String },
    Done,
    Failed(String),
    Conflict(RebaseConflict),
}

/// The contents of a `Restack`.
#[verifier::ext_equal]
pub struct RestackView {
    pub state: StackView,
    pub order: Seq<Seq<char>>,
    pub cmd: Seq<char>,
    pub force: bool,
    pub phase: RestackPhase,
    /// The branch in work.
    pub at: int,
    pub parent: Seq<char>,
    /// How it is rebased.
    pub candidate: RebaseView,
    /// Its tip before anything was done.
    pub before: Seq<char>,
    /// Its tip when it was inspected.
    pub branch_tip: Seq<char>,
    /// How many of its commits the parent already holds.
    pub redundant: u64,
    pub restacked: Seq<Seq<char>>,
    pub failures: Seq<FailureView>,
    pub receipts: Seq<JsonView>,
}

/// The parent of a branch and its tip, and the stack with a parent that git no longer knows
/// replaced by the one that the commit graph suggests; or why there is none.
pub open spec fn healed(
    s: StackView,
    g: GitView,
    branch: Seq<char>,
    unresolved: Seq<char>,
) -> Result<(Seq<char>, Seq<char>, StackView), Seq<char>> {
    let meta = s.branches[branch];
    match g.tip(meta.parent) {
        Some(tip) => Ok((meta.parent, tip, s)),
        None => match inferred(g, s, branch) {
            None => Err(no_base_text(branch, s.trunk)),
            Some(p) => match g.tip(p) {
                None => Err(unresolved),
                Some(tip) => Ok(
                    (
                        p,
                        tip,
                        s.with_branches(
                            s.branches.insert(
                                branch,
                                MetaView {
                                    parent: p,
                                    parent_head: trimmed(
                                        match g.base(p, branch) {
                                            Some(b) => b,
                                            None => tip,
                                        },
                                    ),
                                    ..meta
                                },
                            ),
                        ),
                    ),
                ),
            },
        },
    }
}

/// The receipt for a branch that could not be restacked.
pub open spec fn failed_receipt(
    cmd: Seq<char>,
    branch: Seq<char>,
    reason: Seq<char>,
    parent: Seq<char>,
    detail: Seq<char>,
) -> JsonView {
    JsonView::Object(
        no_fields().insert("cmd"@, JsonView::Text(cmd)).insert(
            "branch"@,
            JsonView::Text(branch),
        ).insert("action"@, JsonView::Text("restack_failed"@)).insert(
            "reason"@,
            JsonView::Text(reason),
        ).insert("parent"@, JsonView::Text(parent)).insert("detail"@, JsonView::Text(detail)),
    )
}

/// What is said of a branch whose merge commits stop its rebase.
pub open spec fn merge_detail(cmd: Seq<char>, merges: u64) -> Seq<char> {
    decimal(merges as nat) + " merge commit(s) require `"@ + (if cmd == "restack"@ || cmd
        == "sync"@ || cmd == "move"@ {
        "ez "@ + cmd + " --force"@
    } else {
        "ez restack --force"@
    }) + "` before rebase linearization"@
}

/// The part of a receipt that all moved branches share.
pub open spec fn moved_fields(cmd: Seq<char>, branch: Seq<char>) -> Map<Seq<char>, JsonView> {
    no_fields().insert("cmd"@, JsonView::Text(cmd)).insert("branch"@, JsonView::Text(branch)).insert(
        "action"@,
        JsonView::Text("restacked"@),
    )
}

/// The receipt for a branch that moved, by a rebase or by being set onto its parent's tip.
pub open spec fn moved_receipt(v: RestackView, aligned: bool, after: Seq<char>) -> JsonView {
    let base = moved_fields(v.cmd, v.candidate.branch);
    let fields = if aligned {
        base.insert("method"@, JsonView::Text("already_applied"@))
    } else {
        base
    };
    JsonView::Object(
        fields.insert("parent"@, JsonView::Text(v.parent)).insert(
            "before"@,
            JsonView::Text(prefix(v.before, 7)),
        ).insert("after"@, JsonView::Text(prefix(after, 7))).insert(
            "redundant_commits"@,
            JsonView::Number(v.redundant),
        ),
    )
}

/// The branches of failures.
pub open spec fn left_names(s: Seq<FailureView>) -> Seq<Seq<char>> {
    Seq::new(s.len(), |i: int| s[i].branch)
}

impl RestackView {
    /// How the restack ends its command: with the number of branches that moved, or with the
    /// error that counts and names those left behind.
    pub open spec fn verdict(self) -> Result<nat, ErrorView> {
        if self.failures.len() > 0 {
            Err(
                ErrorView::RestackIncomplete {
                    count: self.failures.len(),
                    branches: joined(left_names(self.failures), ", "@),
                },
            )
        } else {
            Ok(self.restacked.len())
        }
    }

    /// The branch in work.
    pub open spec fn branch(self) -> Seq<char> {
        self.order[self.at]
    }

    /// Goes on with the first recorded branch from `i` on.
    pub open spec fn on(self, i: int) -> RestackView
        decreases self.order.len() - i,
    {
        if i >= self.order.len() {
            RestackView { phase: RestackPhase::Finished, at: i, ..self }
        } else if self.state.managed(self.order[i]) {
            RestackView { phase: RestackPhase::Observe, at: i, ..self }
        } else {
            self.on(i + 1)
        }
    }

    /// Goes on with the next branch.
    pub open spec fn next(self) -> RestackView {
        self.on(self.at + 1)
    }

    /// Leaves the branch in work alone.
    pub open spec fn leave(self, parent: Seq<char>, message: Option<Seq<char>>) -> RestackView {
        RestackView {
            failures: self.failures.push(FailureView { branch: self.branch(), parent, message }),
            ..self
        }
    }

    /// Leaves the branch in work alone, with a receipt.
    pub open spec fn leave_with(
        self,
        reason: Seq<char>,
        parent: Seq<char>,
        detail: Seq<char>,
    ) -> RestackView {
        RestackView {
            receipts: self.receipts.push(
                failed_receipt(self.cmd, self.branch(), reason, parent, detail),
            ),
            ..self.leave(parent, Some(detail))
        }.next()
    }

    /// Holds the branch in work against what git says.
    pub open spec fn observe(
        self,
        g: GitView,
        guard: Option<Seq<char>>,
        unresolved: Seq<char>,
    ) -> RestackView {
        let b = self.branch();
        if !g.has_branch(b) {
            self.next()
        } else {
            match healed(self.state, g, b, unresolved) {
                Err(detail) => self.leave_with(
                    "unresolvable_parent"@,
                    self.state.branches[b].parent,
                    detail,
                ),
                Ok((parent, tip, state)) => {
                    let v = RestackView { state: state, ..self };
                    let recorded = state.branches[b].parent_head;
                    if tip == recorded {
                        v.next()
                    } else {
                        match guard {
                            Some(detail) => v.leave_with("worktree_guard"@, parent, detail),
                            None => {
                                let base = replay_base(g, b, parent, recorded);
                                RestackView {
                                    phase: RestackPhase::Inspect,
                                    parent: parent,
                                    before: match g.tip(b) {
                                        Some(t) => t,
                                        None => Seq::empty(),
                                    },
                                    candidate: RebaseView {
                                        branch: b,
                                        destination_tip: tip,
                                        old_base: base.0,
                                        derived_base: base.1,
                                    },
                                    ..v
                                }
                            },
                        }
                    }
                },
            }
        }
    }

    /// Decides how the branch in work is moved, if it is.
    pub open spec fn decide(self, p: PreflightView) -> RestackView {
        if p.merge_commits > 0 && !self.force {
            self.leave_with(
                "merge_commit_preflight"@,
                self.parent,
                merge_detail(self.cmd, p.merge_commits),
            )
        } else {
            RestackView {
                phase: if p.all_redundant() {
                    RestackPhase::Align
                } else {
                    RestackPhase::Rebase
                },
                branch_tip: p.branch_tip,
                redundant: p.cherry.redundant,
                ..self
            }
        }
    }

    /// Records that the branch in work now stands on its parent's tip.
    pub open spec fn moved(self, after: Seq<char>) -> RestackView {
        let b = self.branch();
        RestackView {
            state: self.state.with_branches(
                self.state.branches.insert(
                    b,
                    MetaView {
                        parent_head: self.candidate.destination_tip,
                        ..self.state.branches[b]
                    },
                ),
            ),
            restacked: self.restacked.push(b),
            receipts: self.receipts.push(
                moved_receipt(self, self.phase == RestackPhase::Align, after),
            ),
            ..self
        }.next()
    }

    /// Whether `w` is the restack after a reply. A reply that it does not wait for changes
    /// nothing.
    pub open spec fn steps(self, reply: RestackReply, w: RestackView) -> bool {
        match (self.phase, reply) {
            (RestackPhase::Observe, RestackReply::Observed { git, guard, unresolved }) => w
                == self.observe(git, crate::text::opt_view(guard), unresolved@),
            (RestackPhase::Inspect, RestackReply::Inspected(facts)) => match facts_fault(facts) {
                Some(text) => w == self.leave(self.parent, Some(text)).next(),
                None => exists|p: PreflightView| #[trigger]
                    inspected(self.candidate, facts, p) && w == self.decide(p),
            },
            (RestackPhase::Align, RestackReply::Moved { after }) => w == self.moved(after@),
            (RestackPhase::Align, RestackReply::Failed(t)) => w == self.leave(
                self.parent,
                Some(t@),
            ).next(),
            (RestackPhase::Rebase, RestackReply::Moved { after }) => w == self.moved(after@),
            (RestackPhase::Rebase, RestackReply::Conflict(c)) => w == (RestackView {
                phase: RestackPhase::Recover,
                receipts: self.receipts.push(
                    conflict_receipt(self.cmd, self.branch(), self.parent, c@, "ez restack"@),
                ),
                ..self.leave(self.parent, None)
            }),
            (RestackPhase::Rebase, RestackReply::Failed(t)) => w == self.leave_with(
                "git_error"@,
                self.parent,
                t@,
            ),
            (RestackPhase::Recover, RestackReply::Done) => w == self.next(),
            (RestackPhase::Recover, RestackReply::Failed(_)) => w == self.next(),
            _ => w == self,
        }
    }

    /// What holds throughout a restack.
    pub open spec fn wf(self) -> bool {
        &&& 0 <= self.at <= self.order.len()
        &&& self.phase is Finished || (self.at < self.order.len() && self.state.managed(
            self.branch(),
        ))
        &&& (self.phase is Inspect || self.phase is Align || self.phase is Rebase)
            ==> self.candidate.branch == self.branch()
        &&& self.restacked.len() + self.failures.len() <= self.at + (if self.phase is Recover {
            1int
        } else {
            0
        })
    }
}

#[derive(Debug)]
struct RestackData {
    state: StackState,
    order: Vec<String>,
    cmd: String,
    force: bool,
    phase: RestackPhase,
    at: usize,
    parent: String,
    candidate: RebaseCandidate,
    before: String,
    branch_tip: String,
    redundant: u64,
    restacked: Vec<String>,
    failures: Vec<RestackFailure>,
    receipts: Vec<Json>,
}

/// The contents of a list of receipts.
pub open spec fn receipt_views(s: Seq<Json>) -> Seq<JsonView> {
    s.map_values(|j: Json| j@)
}

impl View for RestackData {
    type V = RestackView;

    closed spec fn view(&self) -> RestackView {
        RestackView {
            state: self.state@,
            order: views(self.order@),
            cmd: self.cmd@,
            force: self.force,
            phase: self.phase,
            at: self.at as int,
            parent: self.parent@,
            candidate: self.candidate@,
            before: self.before@,
            branch_tip: self.branch_tip@,
            redundant: self.redundant,
            restacked: views(self.restacked@),
            failures: failure_views(self.failures@),
            receipts: receipt_views(self.receipts@),
        }
    }
}

/// A parent that a branch is held against, with its tip.
struct Footing {
    parent: String,
    tip: String,
}

/// Finds the parent of a branch and its tip. A parent that git no longer knows is replaced, in
/// the record too, by the one that the commit graph suggests.
fn resolve_parent(
    state: &mut StackState,
    git: &GitView,
    branch: &str,
    unresolved: String,
) -> (r: Result<Footing, String>)
    requires
        old(state)@.managed(branch@),
    ensures
        match healed(old(state)@, *git, branch@, unresolved@) {
            Ok((parent, tip, after)) => r matches Ok(f) && f.parent@ == parent && f.tip@ == tip
                && final(state)@ == after,
            Err(text) => r matches Err(t) && t@ == text && final(state)@ == old(state)@,
        },
{
    let recorded: String = match state.branches.get(branch) {
        Some(meta) => meta.parent.clone(),
        None => String::new(),
    };
    if let Some(tip) = git.rev_parse(&recorded) {
        return Ok(Footing { parent: recorded, tip });
    }
    let parent: String = match infer_parent(git, branch, state) {
        Ok(p) => p,
        Err(_) => {
            return Err(
                String::from_str("could not find a merge-base between `").concat(branch).concat(
                    "` and trunk `",
                ).concat(&state.trunk).concat("`\n  → Pass `--parent <name>` explicitly"),
            );
        },
    };
    let tip: String = match git.rev_parse(&parent) {
        Some(t) => t,
        None => {
            return Err(unresolved);
        },
    };
    let base: String = match git.merge_base(&parent, branch) {
        Some(b) => b,
        None => tip.clone(),
    };
    let _ = state.set_parent(branch, &parent, trim(&base));
    Ok(Footing { parent, tip })
}

fn failed_entry(cmd: &str, branch: &str, reason: &str, parent: &str, detail: &str) -> (r: Json)
    ensures
        r@ == failed_receipt(cmd@, branch@, reason@, parent@, detail@),
{
    JsonObject::new().field("cmd", Json::text(cmd)).field("branch", Json::text(branch)).field(
        "action",
        Json::text("restack_failed"),
    ).field("reason", Json::text(reason)).field("parent", Json::text(parent)).field(
        "detail",
        Json::text(detail),
    ).done()
}

fn merge_text(cmd: &str, merges: u64) -> (r: String)
    ensures
        r@ == merge_detail(cmd@, merges),
{
    let force_command: String = if same(cmd, "restack") || same(cmd, "sync") || same(cmd, "move") {
        String::from_str("ez ").concat(cmd).concat(" --force")
    } else {
        String::from_str("ez restack --force")
    };
    number(merges).concat(" merge commit(s) require `").concat(&force_command).concat(
        "` before rebase linearization",
    )
}

impl RestackData {
    /// Goes on with the first recorded branch from `i` on.
    fn on(&mut self, i: usize)
        requires
            i <= old(self).order.len(),
        ensures
            final(self)@ == old(self)@.on(i as int),
        decreases old(self).order.len() - i,
    {
        if i >= self.order.len() {
            self.phase = RestackPhase::Finished;
            self.at = i;
            return;
        }
        assert(self@.order[i as int] == self.order@[i as int]@);
        if self.state.is_managed(&self.order[i]) {
            self.phase = RestackPhase::Observe;
            self.at = i;
            return;
        }
        self.on(i + 1);
    }

    fn next(&mut self)
        requires
            old(self).at < old(self).order.len(),
        ensures
            final(self)@ == old(self)@.next(),
    {
        self.on(self.at + 1);
    }

    fn leave(&mut self, parent: &str, message: Option<String>)
        requires
            old(self).at < old(self).order.len(),
        ensures
            final(self)@ == old(self)@.leave(parent@, crate::text::opt_view(message)),
            final(self).at == old(self).at,
            final(self).order == old(self).order,
    {
        let ghost held = failure_views(self.failures@);
        let failure = RestackFailure {
            branch: self.order[self.at].clone(),
            parent: parent.to_owned(),
            kind: match message {
                Some(m) => RestackFailureKind::Error(m),
                None => RestackFailureKind::Conflict,
            },
        };
        let ghost f = failure@;
        self.failures.push(failure);
        assert(failure_views(self.failures@) =~= held.push(f));
    }

    fn note(&mut self, receipt: Json)
        ensures
            final(self)@ == (RestackView {
                receipts: old(self)@.receipts.push(receipt@),
                ..old(self)@
            }),
            final(self).at == old(self).at,
            final(self).order == old(self).order,
    {
        let ghost held = receipt_views(self.receipts@);
        let ghost j = receipt@;
        self.receipts.push(receipt);
        assert(receipt_views(self.receipts@) =~= held.push(j));
    }

    fn leave_with(&mut self, reason: &str, parent: &str, detail: &str)
        requires
            old(self).at < old(self).order.len(),
        ensures
            final(self)@ == old(self)@.leave_with(reason@, parent@, detail@),
    {
        let entry: Json = failed_entry(&self.cmd, &self.order[self.at], reason, parent, detail);
        self.note(entry);
        self.leave(parent, Some(detail.to_owned()));
        self.next();
    }

    fn observe(&mut self, git: &GitView, guard: Option<String>, unresolved: String)
        requires
            old(self)@.wf(),
            old(self).phase is Observe,
        ensures
            final(self)@ == old(self)@.observe(
                *git,
                crate::text::opt_view(guard),
                unresolved@,
            ),
    {
        let branch: String = self.order[self.at].clone();
        assert(self@.branch() == branch@);
        if !git.branch_exists(&branch) {
            self.next();
            return;
        }
        let recorded: String = match self.state.branches.get(&branch) {
            Some(meta) => meta.parent.clone(),
            None => String::new(),
        };
        let found: Result<Footing, String> = resolve_parent(
            &mut self.state,
            git,
            &branch,
            unresolved,
        );
        match found {
            Err(detail) => {
                self.leave_with("unresolvable_parent", &recorded, &detail);
            },
            Ok(footing) => {
                let stored: String = match self.state.branches.get(&branch) {
                    Some(meta) => meta.parent_head.clone(),
                    None => String::new(),
                };
                if same(&footing.tip, &stored) {
                    self.next();
                    return;
                }
                match guard {
                    Some(detail) => {
                        self.leave_with("worktree_guard", &footing.parent, &detail);
                    },
                    None => {
                        let (old_base, derived_base) = effective_old_base(
                            git,
                            &branch,
                            &footing.parent,
                            &stored,
                        );
                        self.before = match git.rev_parse(&branch) {
                            Some(t) => t,
                            None => String::new(),
                        };
                        self.candidate = RebaseCandidate {
                            branch,
                            destination_tip: footing.tip,
                            old_base,
                            derived_base,
                        };
                        self.parent = footing.parent;
                        self.phase = RestackPhase::Inspect;
                    },
                }
            },
        }
    }

    fn decide(&mut self, p: BranchPreflight)
        requires
            old(self).at < old(self).order.len(),
        ensures
            final(self)@ == old(self)@.decide(p@),
    {
        if p.merge_commits > 0 && !self.force {
            let detail: String = merge_text(&self.cmd, p.merge_commits);
            let parent: String = self.parent.clone();
            self.leave_with("merge_commit_preflight", &parent, &detail);
            return;
        }
        self.phase = if p.all_redundant() {
            RestackPhase::Align
        } else {
            RestackPhase::Rebase
        };
        self.redundant = p.cherry.redundant;
        self.branch_tip = p.branch_tip;
    }

    fn moved(&mut self, after: &str)
        requires
            old(self)@.wf(),
            old(self).phase is Align || old(self).phase is Rebase,
        ensures
            final(self)@ == old(self)@.moved(after@),
    {
        let ghost start = self@;
        let branch: String = self.order[self.at].clone();
        assert(self@.branch() == branch@);
        let base: JsonObject = JsonObject::new().field("cmd", Json::text(&self.cmd)).field(
            "branch",
            Json::text(&self.candidate.branch),
        ).field("action", Json::text("restacked"));
        let fields: JsonObject = match self.phase {
            RestackPhase::Align => base.field("method", Json::text("already_applied")),
            _ => base,
        };
        let receipt: Json = fields.field("parent", Json::text(&self.parent)).field(
            "before",
            Json::Text(short(&self.before)),
        ).field("after", Json::Text(short(after))).field(
            "redundant_commits",
            Json::Number(self.redundant),
        ).done();
        assert(receipt@ == moved_receipt(start, start.phase == RestackPhase::Align, after@));
        self.note(receipt);
        let parent: String = match self.state.branches.get(&branch) {
            Some(meta) => meta.parent.clone(),
            None => String::new(),
        };
        let _ = self.state.set_parent(&branch, &parent, &self.candidate.destination_tip);
        let ghost held = views(self.restacked@);
        self.restacked.push(branch);
        proof {
            assert(views(self.restacked@) =~= held.push(start.branch()));
            let meta = start.state.branches[start.branch()];
            assert((MetaView {
                parent: meta.parent,
                parent_head: start.candidate.destination_tip,
                ..meta
            }) =~= (MetaView { parent_head: start.candidate.destination_tip, ..meta }));
        }
        self.next();
    }

    fn step(&mut self, reply: RestackReply)
        requires
            old(self)@.wf(),
        ensures
            old(self)@.steps(reply, final(self)@),
    {
        let ghost start = self@;
        match (self.phase, reply) {
            (RestackPhase::Observe, RestackReply::Observed { git, guard, unresolved }) => {
                self.observe(&git, guard, unresolved);
            },
            (RestackPhase::Inspect, RestackReply::Inspected(facts)) => {
                match inspect_candidate(&self.candidate, &facts) {
                    Ok(p) => {
                        assert(inspected(start.candidate, facts, p@));
                        self.decide(p);
                    },
                    Err(e) => {
                        let text: String = e.message();
                        let parent: String = self.parent.clone();
                        self.leave(&parent, Some(text));
                        self.next();
                    },
                }
            },
            (RestackPhase::Align, RestackReply::Moved { after }) => self.moved(&after),
            (RestackPhase::Align, RestackReply::Failed(t)) => {
                let parent: String = self.parent.clone();
                self.leave(&parent, Some(t));
                self.next();
            },
            (RestackPhase::Rebase, RestackReply::Moved { after }) => self.moved(&after),
            (RestackPhase::Rebase, RestackReply::Conflict(c)) => {
                let receipt: Json = receipt_value(
                    &self.cmd,
                    &self.order[self.at],
                    &self.parent,
                    &c,
                    "ez restack",
                );
                self.note(receipt);
                let parent: String = self.parent.clone();
                self.leave(&parent, None);
                self.phase = RestackPhase::Recover;
            },
            (RestackPhase::Rebase, RestackReply::Failed(t)) => {
                let parent: String = self.parent.clone();
                self.leave_with("git_error", &parent, &t);
            },
            (RestackPhase::Recover, RestackReply::Done) => self.next(),
            (RestackPhase::Recover, RestackReply::Failed(_)) => self.next(),
            _ => {},
        }
    }
}

/// Going on from a branch changes nothing but the branch in work, and passes over branches that
/// are not recorded only.
pub proof fn lemma_on(v: RestackView, i: int)
    requires
        0 <= i <= v.order.len(),
    ensures
        ({
            let w = v.on(i);
            &&& w == (RestackView { phase: w.phase, at: w.at, ..v })
            &&& i <= w.at <= v.order.len()
            &&& w.phase == RestackPhase::Finished && w.at == v.order.len() || w.phase
                == RestackPhase::Observe && w.at < v.order.len() && v.state.managed(v.order[w.at])
            &&& forall|j: int| i <= j < w.at ==> !v.state.managed(#[trigger] v.order[j])
        }),
    decreases v.order.len() - i,
{
    if i < v.order.len() && !v.state.managed(v.order[i]) {
        lemma_on(v, i + 1);
    }
}

/// Going on changes nothing but the branch in work.
proof fn lemma_on_always()
    ensures
        forall|v: RestackView, i: int|
            0 <= i <= v.order.len() ==> {
                let w = #[trigger] v.on(i);
                &&& w == (RestackView { phase: w.phase, at: w.at, ..v })
                &&& i <= w.at <= v.order.len()
                &&& w.phase == RestackPhase::Finished && w.at == v.order.len() || w.phase
                    == RestackPhase::Observe && w.at < v.order.len() && v.state.managed(
                    v.order[w.at],
                )
            },
{
    assert forall|v: RestackView, i: int| 0 <= i <= v.order.len() implies {
        let w = #[trigger] v.on(i);
        &&& w == (RestackView { phase: w.phase, at: w.at, ..v })
        &&& i <= w.at <= v.order.len()
        &&& w.phase == RestackPhase::Finished && w.at == v.order.len() || w.phase
            == RestackPhase::Observe && w.at < v.order.len() && v.state.managed(v.order[w.at])
    } by {
        lemma_on(v, i);
    }
}

/// Every reply keeps what holds throughout a restack.
pub proof fn law_restack_keeps_order(v: RestackView, reply: RestackReply, w: RestackView)
    requires
        v.wf(),
        v.steps(reply, w),
    ensures
        w.wf(),
{
    lemma_on_always();
}

/// Whether two stacks differ in nothing but the parents and parent commits of branches of
/// `order`.
pub open spec fn same_but_bases(s: StackView, t: StackView, order: Seq<Seq<char>>) -> bool {
    &&& t == s.with_branches(t.branches)
    &&& t.branches.dom() == s.branches.dom()
    &&& forall|b: Seq<char>| #[trigger]
        s.branches.contains_key(b) ==> {
            &&& t.branches[b] == (MetaView {
                parent: t.branches[b].parent,
                parent_head: t.branches[b].parent_head,
                ..s.branches[b]
            })
            &&& !order.contains(b) ==> t.branches[b] == s.branches[b]
        }
}

/// Whether `replies` take a restack from `v` to `w`.
pub open spec fn leads_to(v: RestackView, replies: Seq<RestackReply>, w: RestackView) -> bool
    decreases replies.len(),
{
    if replies.len() == 0 {
        w == v
    } else {
        exists|u: RestackView| #[trigger]
            u.steps(replies.last(), w) && leads_to(v, replies.drop_last(), u)
    }
}

/// One reply changes nothing but the recorded parents and parent commits.
pub proof fn lemma_step_bases(v: RestackView, reply: RestackReply, w: RestackView)
    requires
        v.wf(),
        v.steps(reply, w),
    ensures
        same_but_bases(v.state, w.state, v.order),
        w.order == v.order,
        w.cmd == v.cmd,
        w.force == v.force,
{
    if !(v.phase is Finished) {
        assert(v.order.contains(v.branch()));
        lemma_on_always();
        assert(v.state.branches.insert(v.branch(), v.state.branches[v.branch()]).dom()
            =~= v.state.branches.dom());
        assert(w.state.branches.dom() =~= v.state.branches.dom());
    }
}

/// Whatever is replied, a restack changes nothing but the recorded parents and parent commits of
/// the branches it was given, and every branch it was given counts at most once as restacked or
/// left alone.
pub proof fn law_restack_changes_only_bases(
    v: RestackView,
    replies: Seq<RestackReply>,
    w: RestackView,
)
    requires
        v.wf(),
        leads_to(v, replies, w),
    ensures
        w.wf(),
        same_but_bases(v.state, w.state, v.order),
        w.restacked.len() + w.failures.len() <= v.order.len(),
        w.order == v.order,
    decreases replies.len(),
{
    if replies.len() > 0 {
        let u = choose|u: RestackView| #[trigger]
            u.steps(replies.last(), w) && leads_to(v, replies.drop_last(), u);
        law_restack_changes_only_bases(v, replies.drop_last(), u);
        law_restack_keeps_order(u, replies.last(), w);
        lemma_step_bases(u, replies.last(), w);
    }
}

/// A branch that could not be inspected, aligned or rebased keeps its recorded parent and parent
/// commit, so that a later restack tries it again.
pub proof fn law_failed_branch_stays(v: RestackView, reply: RestackReply, w: RestackView)
    requires
        v.wf(),
        v.phase is Inspect || v.phase is Align || v.phase is Rebase || v.phase is Recover,
        !(reply is Moved),
        v.steps(reply, w),
    ensures
        w.state == v.state,
        w.restacked == v.restacked,
{
    lemma_on_always();
}

/// A branch that was moved is recorded on the tip that it was moved to, under the same parent,
/// and no other branch changes.
pub proof fn law_moved_branch_is_recorded(v: RestackView, reply: RestackReply, w: RestackView)
    requires
        v.wf(),
        v.phase is Align || v.phase is Rebase,
        reply is Moved,
        v.steps(reply, w),
    ensures
        w.state.branches[v.branch()] == (MetaView {
            parent_head: v.candidate.destination_tip,
            ..v.state.branches[v.branch()]
        }),
        forall|b: Seq<char>|
            b != v.branch() && #[trigger] v.state.branches.contains_key(b)
                ==> w.state.branches[b] == v.state.branches[b],
        w.restacked == v.restacked.push(v.branch()),
        w.failures == v.failures,
{
    lemma_on_always();
}

/// What a restack asks for next.
#[derive(Debug)]
pub enum RestackAction {
    /// What git says of the branch and of where it could stand.
    Observe { branch: String, parent: String },
    /// What a rebase of the candidate would do.
    Inspect { branch: String, destination_tip: String, old_base: String },
    /// Set the branch onto the tip, if it still is at the expected commit.
    Align { branch: String, target: String, expected: String },
    /// Replay the commits after the base onto the tip.
    Rebase { branch: String, onto: String, old_base: String },
    /// Take back a rebase of the branch that stopped.
    Recover(String),
    /// Nothing more.
    Finished,
}

/// The contents of a `RestackAction`.
#[verifier::ext_equal]
pub enum RestackActionView {
    Observe { branch: Seq<char>, parent: Seq<char> },
    Inspect { branch: Seq<char>, destination_tip: Seq<char>, old_base: Seq<char> },
    Align { branch: Seq<char>, target: Seq<char>, expected: Seq<char> },
    Rebase { branch: Seq<char>, onto: Seq<char>, old_base: Seq<char> },
    Recover(Seq<char>),
    Finished,
}

impl View for RestackAction {
    type V = RestackActionView;

    open spec fn view(&self) -> RestackActionView {
        match *self {
            RestackAction::Observe { branch, parent } => RestackActionView::Observe {
                branch: branch@,
                parent: parent@,
            },
            RestackAction::Inspect { branch, destination_tip, old_base } => {
                RestackActionView::Inspect {
                    branch: branch@,
                    destination_tip: destination_tip@,
                    old_base: old_base@,
                }
            },
            RestackAction::Align { branch, target, expected } => RestackActionView::Align {
                branch: branch@,
                target: target@,
                expected: expected@,
            },
            RestackAction::Rebase { branch, onto, old_base } => RestackActionView::Rebase {
                branch: branch@,
                onto: onto@,
                old_base: old_base@,
            },
            RestackAction::Recover(b) => RestackActionView::Recover(b@),
            RestackAction::Finished => RestackActionView::Finished,
        }
    }
}

impl RestackView {
    /// What a restack asks for next.
    pub open spec fn action(self) -> RestackActionView {
        let c = self.candidate;
        match self.phase {
            RestackPhase::Observe => RestackActionView::Observe {
                branch: self.branch(),
                parent: self.state.branches[self.branch()].parent,
            },
            RestackPhase::Inspect => RestackActionView::Inspect {
                branch: c.branch,
                destination_tip: c.destination_tip,
                old_base: c.old_base,
            },
            RestackPhase::Align => RestackActionView::Align {
                branch: c.branch,
                target: c.destination_tip,
                expected: self.branch_tip,
            },
            RestackPhase::Rebase => RestackActionView::Rebase {
                branch: c.branch,
                onto: c.destination_tip,
                old_base: c.old_base,
            },
            RestackPhase::Recover => RestackActionView::Recover(self.branch()),
            RestackPhase::Finished => RestackActionView::Finished,
        }
    }
}

/// A restack in progress.
#[derive(Debug)]
pub struct Restack {
    data: RestackData,
}

impl View for Restack {
    type V = RestackView;

    closed spec fn view(&self) -> RestackView {
        self.data@
    }
}

/// A restack at its start.
pub open spec fn fresh_restack(
    state: StackView,
    order: Seq<Seq<char>>,
    cmd: Seq<char>,
    force: bool,
) -> RestackView {
    RestackView {
        state,
        order,
        cmd,
        force,
        phase: RestackPhase::Finished,
        at: 0,
        parent: Seq::empty(),
        candidate: RebaseView {
            branch: Seq::empty(),
            destination_tip: Seq::empty(),
            old_base: Seq::empty(),
            derived_base: false,
        },
        before: Seq::empty(),
        branch_tip: Seq::empty(),
        redundant: 0,
        restacked: Seq::empty(),
        failures: Seq::empty(),
        receipts: Seq::empty(),
    }.on(0)
}

/// Starts to restack every branch of `order` whose parent's tip is no longer the one recorded.
/// Each branch is tried on its own: one that cannot be moved is left where it was. `order` lists
/// parents before children, so that a tip moved here is seen by the branches on it.
pub fn restack_branches_with_options(
    state: &StackState,
    order: Vec<String>,
    cmd: &str,
    options: RestackOptions,
) -> (r: Restack)
    ensures
        r@ == fresh_restack(state@, views(order@), cmd@, options.force),
{
    let ghost names = views(order@);
    let mut data = RestackData {
        state: state.copy(),
        order,
        cmd: cmd.to_owned(),
        force: options.force,
        phase: RestackPhase::Finished,
        at: 0,
        parent: String::new(),
        candidate: RebaseCandidate {
            branch: String::new(),
            destination_tip: String::new(),
            old_base: String::new(),
            derived_base: false,
        },
        before: String::new(),
        branch_tip: String::new(),
        redundant: 0,
        restacked: Vec::new(),
        failures: Vec::new(),
        receipts: Vec::new(),
    };
    proof {
        assert(views(data.restacked@) =~= Seq::<Seq<char>>::empty());
        assert(failure_views(data.failures@) =~= Seq::<FailureView>::empty());
        assert(receipt_views(data.receipts@) =~= Seq::<JsonView>::empty());
        lemma_on(data@, 0);
    }
    data.on(0);
    Restack { data }
}

/// Starts to restack the descendants of `root`, whose tip has moved. However that ends, the stack
/// is saved and `return_to` checked out.
pub fn cascade_restack_with_options(
    state: &StackState,
    root: &str,
    return_to: &str,
    cmd: &str,
    options: RestackOptions,
) -> (r: Cascade)
    ensures
        r@ == fresh_cascade(
            fresh_restack(state@, topo(state@.branches, root@), cmd@, options.force),
            return_to@,
            true,
        ),
{
    let order: Vec<String> = state.descendants_topo(root);
    Cascade::begin(restack_branches_with_options(state, order, cmd, options), return_to, true)
}

/// Starts to restack the descendants of `root`, whose tip has moved, without straightening out
/// merge commits. However that ends, the stack is saved and `return_to` checked out.
pub fn cascade_restack(state: &StackState, root: &str, return_to: &str, cmd: &str) -> (r: Cascade)
    ensures
        r@ == fresh_cascade(
            fresh_restack(state@, topo(state@.branches, root@), cmd@, false),
            return_to@,
            true,
        ),
{
    cascade_restack_with_options(state, root, return_to, cmd, RestackOptions { force: false })
}

/// Starts to restack every branch on the trunk. However that ends, `original` is checked out and
/// the stack saved.
pub fn run(state: &StackState, original: &str, force: bool) -> (r: Cascade)
    ensures
        r@ == fresh_cascade(
            fresh_restack(state@, topo(state@.branches, state@.trunk), "restack"@, force),
            original@,
            false,
        ),
{
    let order: Vec<String> = state.topo_order();
    let restack: Restack = restack_branches_with_options(
        state,
        order,
        "restack",
        RestackOptions { force },
    );
    Cascade::begin(restack, original, false)
}

impl Restack {
    #[verifier::type_invariant]
    spec fn in_order(self) -> bool {
        self.data@.wf()
    }

    /// The restack after a reply to what it asked for.
    pub fn step(self, reply: RestackReply) -> (r: Restack)
        ensures
            self@.steps(reply, r@),
    {
        proof {
            use_type_invariant(&self);
        }
        let ghost v = self@;
        let mut data = self.data;
        data.step(reply);
        proof {
            law_restack_keeps_order(v, reply, data@);
        }
        Restack { data }
    }

    /// What the restack asks for next.
    pub fn action(&self) -> (r: RestackAction)
        ensures
            r@ == self@.action(),
    {
        proof {
            use_type_invariant(self);
        }
        let d: &RestackData = &self.data;
        match d.phase {
            RestackPhase::Observe => {
                let branch: String = d.order[d.at].clone();
                assert(self@.branch() == branch@);
                let parent: String = match d.state.branches.get(&branch) {
                    Some(meta) => meta.parent.clone(),
                    None => String::new(),
                };
                RestackAction::Observe { branch, parent }
            },
            RestackPhase::Inspect => RestackAction::Inspect {
                branch: d.candidate.branch.clone(),
                destination_tip: d.candidate.destination_tip.clone(),
                old_base: d.candidate.old_base.clone(),
            },
            RestackPhase::Align => RestackAction::Align {
                branch: d.candidate.branch.clone(),
                target: d.candidate.destination_tip.clone(),
                expected: d.branch_tip.clone(),
            },
            RestackPhase::Rebase => RestackAction::Rebase {
                branch: d.candidate.branch.clone(),
                onto: d.candidate.destination_tip.clone(),
                old_base: d.candidate.old_base.clone(),
            },
            RestackPhase::Recover => RestackAction::Recover(d.order[d.at].clone()),
            RestackPhase::Finished => RestackAction::Finished,
        }
    }

    /// The stack, the report and the receipts, with nothing more to be done.
    pub fn finish(self) -> (r: (StackState, RestackReport, Vec<Json>))
        ensures
            r.0@ == self@.state,
            views(r.1.restacked_branches@) == self@.restacked,
            r.1.restacked == r.1.restacked_branches.len(),
            failure_views(r.1.failures@) == self@.failures,
            receipt_views(r.2@) == self@.receipts,
    {
        let d = self.data;
        let restacked: usize = d.restacked.len();
        (
            d.state,
            RestackReport { restacked, restacked_branches: d.restacked, failures: d.failures },
            d.receipts,
        )
    }

    /// The stack so far.
    pub fn state(&self) -> (r: &StackState)
        ensures
            r@ == self@.state,
    {
        &self.data.state
    }

    /// The command that restacks.
    pub fn cmd(&self) -> (r: String)
        ensures
            r@ == self@.cmd,
    {
        self.data.cmd.clone()
    }

    /// Whether nothing is left to be done.
    pub fn is_finished(&self) -> (r: bool)
        ensures
            r == self@.phase is Finished,
    {
        match self.data.phase {
            RestackPhase::Finished => true,
            _ => false,
        }
    }

    /// How the restack ends its command: with the number of branches that moved, or with the
    /// error that counts and names those left behind.
    pub fn verdict(&self) -> (r: Result<usize, EzError>)
        ensures
            match r {
                Ok(n) => self@.verdict() == Ok::<nat, ErrorView>(n as nat),
                Err(e) => self@.verdict() == Err::<nat, ErrorView>(e@),
            },
    {
        let d: &RestackData = &self.data;
        assert(failure_views(d.failures@).len() == d.failures.len());
        assert(views(d.restacked@).len() == d.restacked.len());
        if d.failures.len() == 0 {
            return Ok(d.restacked.len());
        }
        let branches: String = name_list(&d.failures);
        proof {
            assert(failed_names(d.failures@) =~= left_names(self@.failures));
        }
        Err(EzError::RestackIncomplete { count: d.failures.len(), branches })
    }
}

/// Whether git's account of ancestors hangs together.
pub open spec fn coherent(g: GitView) -> bool {
    forall|a: Seq<char>, b: Seq<char>, c: Seq<char>|
        #![trigger g.ancestor(a, b), g.ancestor(b, c)]
        g.ancestor(a, b) && g.ancestor(b, c) ==> g.ancestor(a, c)
}

/// The recorded parent commit stays the base, as long as the branch holds it, the parent's tip is
/// no other commit that the branch holds, and the two have not come to share more than it.
pub proof fn law_recorded_base_is_kept(
    g: GitView,
    branch: Seq<char>,
    parent: Seq<char>,
    recorded: Seq<char>,
)
    requires
        recorded.len() > 0,
        g.ancestor(recorded, branch),
        g.tip(parent) matches Some(tip) ==> trimmed(tip) == recorded || !g.ancestor(
            trimmed(tip),
            branch,
        ),
        g.base(parent, branch) matches Some(base) ==> trimmed(base).len() == 0 || trimmed(base)
            == recorded || !g.ancestor(recorded, trimmed(base)),
    ensures
        replay_base(g, branch, parent, recorded) == (recorded, false),
{
}

/// Another tip of the parent than the recorded one, which the branch already holds, is the base:
/// nothing that the parent holds is replayed.
pub proof fn law_held_parent_tip_is_base(
    g: GitView,
    branch: Seq<char>,
    parent: Seq<char>,
    recorded: Seq<char>,
)
    requires
        g.tip(parent) matches Some(tip) && trimmed(tip) != recorded && g.ancestor(
            trimmed(tip),
            branch,
        ),
    ensures
        replay_base(g, branch, parent, recorded) == (trimmed(g.tip(parent)->0), true),
{
}

/// A recorded parent commit that the branch does not hold is no base where git knows a merge
/// base: that takes its place.
pub proof fn law_lost_base_gives_way_to_merge_base(
    g: GitView,
    branch: Seq<char>,
    parent: Seq<char>,
    recorded: Seq<char>,
)
    requires
        recorded.len() == 0 || !g.ancestor(recorded, branch),
        g.tip(parent) matches Some(tip) ==> trimmed(tip) == recorded || !g.ancestor(
            trimmed(tip),
            branch,
        ),
        g.base(parent, branch) matches Some(base) && trimmed(base).len() > 0,
    ensures
        replay_base(g, branch, parent, recorded) == (trimmed(g.base(parent, branch)->0), true),
{
}

/// A merge base above the recorded parent commit takes its place: what parent and branch share by
/// now is not replayed.
pub proof fn law_higher_merge_base_is_base(
    g: GitView,
    branch: Seq<char>,
    parent: Seq<char>,
    recorded: Seq<char>,
)
    requires
        recorded.len() > 0,
        g.ancestor(recorded, branch),
        g.tip(parent) matches Some(tip) ==> trimmed(tip) == recorded || !g.ancestor(
            trimmed(tip),
            branch,
        ),
        g.base(parent, branch) matches Some(base) && trimmed(base).len() > 0 && trimmed(base)
            != recorded && g.ancestor(recorded, trimmed(base)),
    ensures
        replay_base(g, branch, parent, recorded) == (trimmed(g.base(parent, branch)->0), true),
{
}

/// No commit at or below the recorded parent commit is replayed while the branch holds that
/// commit, unless the branch already holds another tip of the parent: all such commits lie at or
/// below the base.
pub proof fn law_nothing_below_recorded_base_is_replayed(
    g: GitView,
    branch: Seq<char>,
    parent: Seq<char>,
    recorded: Seq<char>,
    commit: Seq<char>,
)
    requires
        coherent(g),
        recorded.len() > 0,
        g.ancestor(recorded, branch),
        g.tip(parent) matches Some(tip) ==> trimmed(tip) == recorded || !g.ancestor(
            trimmed(tip),
            branch,
        ),
        g.ancestor(commit, recorded),
    ensures
        g.ancestor(commit, replay_base(g, branch, parent, recorded).0),
{
}

/// The base of a replay is the recorded parent commit, the parent's tip or the merge base, and
/// counts as derived exactly where it is not the recorded one; without any word from git it is
/// the recorded one.
pub proof fn law_replay_base_comes_from_record_or_git(
    g: GitView,
    branch: Seq<char>,
    parent: Seq<char>,
    recorded: Seq<char>,
)
    ensures
        ({
            let r = replay_base(g, branch, parent, recorded);
            &&& !r.1 ==> r.0 == recorded
            &&& r.1 ==> (g.tip(parent) matches Some(tip) && r.0 == trimmed(tip)) || (g.base(
                parent,
                branch,
            ) matches Some(base) && r.0 == trimmed(base))
            &&& g.tip(parent) is None && g.base(parent, branch) is None ==> r == (recorded, false)
        }),
{
}

/// A branch whose parent's tip is the one recorded is up to date: it is passed over, and nothing
/// is recorded, reported or left alone.
pub proof fn law_up_to_date_branch_is_passed_over(
    v: RestackView,
    git: GitView,
    guard: Option<String>,
    unresolved: String,
    w: RestackView,
)
    requires
        v.wf(),
        v.phase is Observe,
        git.tip(v.state.branches[v.order[v.at]].parent) == Some(
            v.state.branches[v.order[v.at]].parent_head,
        ),
        v.steps(RestackReply::Observed { git, guard, unresolved }, w),
    ensures
        w.state == v.state,
        w.restacked == v.restacked,
        w.failures == v.failures,
        w.receipts == v.receipts,
        w.at > v.at,
        w.phase is Observe || w.phase is Finished,
        forall|j: int| v.at < j < w.at ==> !v.state.branches.contains_key(#[trigger] v.order[j]),
{
    lemma_on(v, v.at + 1);
    assert(v =~= (RestackView { state: v.state, ..v }));
}

/// A branch whose parent's tip is another than the one recorded, in a worktree that may be
/// touched, is inspected for a rebase onto that tip, from its own replay base.
pub proof fn law_stale_branch_is_inspected(
    v: RestackView,
    git: GitView,
    unresolved: String,
    w: RestackView,
)
    requires
        v.wf(),
        v.phase is Observe,
        git.has_branch(v.order[v.at]),
        git.tip(v.state.branches[v.order[v.at]].parent) matches Some(tip) && tip
            != v.state.branches[v.order[v.at]].parent_head,
        v.steps(RestackReply::Observed { git, guard: None, unresolved }, w),
    ensures
        ({
            let b = v.order[v.at];
            let meta = v.state.branches[b];
            &&& w.phase is Inspect
            &&& w.at == v.at
            &&& w.state == v.state
            &&& w.failures == v.failures
            &&& w.parent == meta.parent
            &&& w.candidate.branch == b
            &&& w.candidate.destination_tip == git.tip(meta.parent)->0
            &&& (w.candidate.old_base, w.candidate.derived_base) == replay_base(
                git,
                b,
                meta.parent,
                meta.parent_head,
            )
        }),
{
}

/// A branch in a worktree that must be left alone stays where it is, and is reported under its
/// recorded parent.
pub proof fn law_guarded_branch_is_left_alone(
    v: RestackView,
    git: GitView,
    guard: String,
    unresolved: String,
    w: RestackView,
)
    requires
        v.wf(),
        v.phase is Observe,
        git.has_branch(v.order[v.at]),
        git.tip(v.state.branches[v.order[v.at]].parent) matches Some(tip) && tip
            != v.state.branches[v.order[v.at]].parent_head,
        v.steps(RestackReply::Observed { git, guard: Some(guard), unresolved }, w),
    ensures
        w.state == v.state,
        w.restacked == v.restacked,
        w.failures.len() == v.failures.len() + 1,
        w.failures.last().branch == v.order[v.at],
        w.failures.last().parent == v.state.branches[v.order[v.at]].parent,
        w.failures.last().message == Some(guard@),
        w.phase is Observe || w.phase is Finished,
{
    lemma_on_always();
}

/// A branch that git does not have is passed over.
pub proof fn law_missing_branch_is_passed_over(
    v: RestackView,
    git: GitView,
    guard: Option<String>,
    unresolved: String,
    w: RestackView,
)
    requires
        v.wf(),
        v.phase is Observe,
        !git.has_branch(v.order[v.at]),
        v.steps(RestackReply::Observed { git, guard, unresolved }, w),
    ensures
        w.state == v.state,
        w.restacked == v.restacked,
        w.failures == v.failures,
        w.receipts == v.receipts,
        w.phase is Observe || w.phase is Finished,
{
    lemma_on_always();
}

/// Merge commits stop a rebase unless it is forced. Otherwise a branch with a commit of its own is
/// rebased; one without any, all of whose commits the parent holds, is only set onto the tip.
pub proof fn law_rebase_is_chosen_by_what_is_left(
    v: RestackView,
    facts: CandidateFacts,
    w: RestackView,
)
    requires
        v.wf(),
        v.phase is Inspect,
        facts.branch_tip is Ok,
        facts.merge_commits is Ok,
        facts.cherry is Ok,
        v.steps(RestackReply::Inspected(facts), w),
    ensures
        ({
            let merges = facts.merge_commits->Ok_0;
            let counts = crate::cmd::preflight::cherry_counts(facts.cherry->Ok_0@);
            &&& w.state == v.state
            &&& merges > 0 && !v.force ==> w.failures.len() == v.failures.len() + 1
                && w.failures.last().branch == v.order[v.at] && (w.phase is Observe
                || w.phase is Finished)
            &&& merges == 0 || v.force ==> w.failures == v.failures && w.at == v.at && w.candidate
                == v.candidate
            &&& (merges == 0 || v.force) ==> (w.phase is Align <==> counts.0 == 0 && counts.1 > 0
                && merges == 0)
            &&& (merges == 0 || v.force) ==> (w.phase is Align || w.phase is Rebase)
            &&& w.phase is Align ==> w.branch_tip == facts.branch_tip->Ok_0@
        }),
{
    lemma_on_always();
}

/// What git is asked for: a rebase of the branch in work onto the tip that its parent was seen at,
/// after its replay base; or, where nothing is left of it, only to be set onto that tip.
pub proof fn law_restack_asks_for_its_candidate(v: RestackView)
    requires
        v.wf(),
    ensures
        v.phase is Observe ==> (v.action() matches RestackActionView::Observe { branch, parent }
            && branch == v.order[v.at] && parent == v.state.branches[v.order[v.at]].parent),
        v.phase is Inspect ==> (v.action() matches RestackActionView::Inspect {
            branch,
            destination_tip,
            old_base,
        } && branch == v.order[v.at] && destination_tip == v.candidate.destination_tip && old_base
            == v.candidate.old_base),
        v.phase is Finished ==> v.action() is Finished,
        v.phase is Rebase ==> (v.action() matches RestackActionView::Rebase { branch, onto, old_base }
            && branch == v.order[v.at] && onto == v.candidate.destination_tip && old_base
            == v.candidate.old_base),
        v.phase is Align ==> (v.action() matches RestackActionView::Align { branch, target, expected }
            && branch == v.order[v.at] && target == v.candidate.destination_tip && expected
            == v.branch_tip),
{
}

/// A recorded parent that git no longer knows is replaced by one that git knows, and only for that
/// branch; one that git knows is kept.
pub proof fn law_healing_changes_one_parent(
    s: StackView,
    g: GitView,
    branch: Seq<char>,
    unresolved: Seq<char>,
)
    requires
        s.managed(branch),
    ensures
        match healed(s, g, branch, unresolved) {
            Ok((parent, tip, t)) => {
                &&& g.tip(parent) == Some(tip)
                &&& t.branches[branch].parent == parent
                &&& t.branches[branch].pr_number == s.branches[branch].pr_number
                &&& t.trunk == s.trunk
                &&& t.branches.dom() =~= s.branches.dom()
                &&& g.tip(s.branches[branch].parent) is Some ==> t == s && parent
                    == s.branches[branch].parent
                &&& forall|b: Seq<char>|
                    b != branch && #[trigger] s.branches.contains_key(b) ==> t.branches[b]
                        == s.branches[b]
            },
            Err(_) => g.tip(s.branches[branch].parent) is None,
        },
{
}

/// Merge commits stop a branch that is not forced; what is left of a forced one, or of one without
/// them, is replayed, or the branch is set onto the tip where nothing is left.
pub proof fn law_merge_commits_stop_unless_forced(v: RestackView, p: PreflightView)
    requires
        v.wf(),
        v.phase is Inspect,
    ensures
        ({
            let w = v.decide(p);
            let empty = p.cherry.unique == 0 && p.cherry.redundant > 0 && p.merge_commits == 0;
            &&& w.state == v.state
            &&& w.restacked == v.restacked
            &&& p.merge_commits > 0 && !v.force ==> w.failures.len() == v.failures.len() + 1
                && w.failures.last().branch == v.order[v.at]
            &&& !(p.merge_commits > 0 && !v.force) ==> w.failures == v.failures && w.at == v.at
                && w.branch_tip == p.branch_tip
            &&& !(p.merge_commits > 0 && !v.force) && empty ==> w.phase is Align
            &&& !(p.merge_commits > 0 && !v.force) && !empty ==> w.phase is Rebase
        }),
{
    lemma_on_always();
}

/// A restack begins with the record and the order it was given, and nothing done.
pub proof fn law_restack_begins_with_its_order(
    state: StackView,
    order: Seq<Seq<char>>,
    cmd: Seq<char>,
    force: bool,
)
    ensures
        ({
            let v = fresh_restack(state, order, cmd, force);
            &&& v.state == state
            &&& v.order == order
            &&& v.force == force
            &&& v.cmd == cmd
            &&& v.restacked.len() == 0
            &&& v.failures.len() == 0
            &&& v.receipts.len() == 0
        }),
{
    lemma_on_always();
}

/// A restack comes to every recorded branch of its order: only branches that are not recorded are
/// passed over.
pub proof fn law_restack_passes_over_unrecorded_only(v: RestackView, i: int)
    requires
        0 <= i <= v.order.len(),
    ensures
        ({
            let w = v.on(i);
            &&& i <= w.at <= v.order.len()
            &&& forall|j: int|
                i <= j < w.at ==> !v.state.branches.contains_key(#[trigger] v.order[j])
            &&& w.at < v.order.len() ==> w.phase is Observe && v.state.branches.contains_key(
                v.order[w.at],
            )
            &&& w.at == v.order.len() ==> w.phase is Finished
            &&& w.state == v.state
            &&& w.failures == v.failures
            &&& w.restacked == v.restacked
        }),
    decreases v.order.len() - i,
{
    if i < v.order.len() && !v.state.managed(v.order[i]) {
        law_restack_passes_over_unrecorded_only(v, i + 1);
    }
}

/// A receipt of a branch that was left behind names it, its parent and the reason.
pub proof fn law_failed_receipt_tells_why(
    cmd: Seq<char>,
    branch: Seq<char>,
    reason: Seq<char>,
    parent: Seq<char>,
    detail: Seq<char>,
)
    ensures
        failed_receipt(cmd, branch, reason, parent, detail) matches JsonView::Object(m) && {
            &&& m["cmd"@] == JsonView::Text(cmd)
            &&& m["branch"@] == JsonView::Text(branch)
            &&& m["action"@] == JsonView::Text("restack_failed"@)
            &&& m["reason"@] == JsonView::Text(reason)
            &&& m["parent"@] == JsonView::Text(parent)
            &&& m["detail"@] == JsonView::Text(detail)
        },
{
    reveal_strlit("cmd");
    reveal_strlit("branch");
    reveal_strlit("action");
    reveal_strlit("reason");
    reveal_strlit("parent");
    reveal_strlit("detail");
    assert("cmd"@.len() == 3);
    assert("branch"@.len() == 6);
    assert("action"@.len() == 6);
    assert("reason"@.len() == 6);
    assert("parent"@.len() == 6);
    assert("detail"@.len() == 6);
    assert("branch"@[0] == 'b');
    assert("action"@[0] == 'a');
    assert("reason"@[0] == 'r');
    assert("parent"@[0] == 'p');
    assert("detail"@[0] == 'd');
}

/// A receipt of a restacked branch names it, the parent it stands on, and the commits before and
/// after in short form; that nothing was left to replay is told exactly where it is so.
pub proof fn law_moved_receipt_tells_both_commits(v: RestackView, aligned: bool, after: Seq<char>)
    ensures
        moved_receipt(v, aligned, after) matches JsonView::Object(m) && {
            &&& m["cmd"@] == JsonView::Text(v.cmd)
            &&& m["branch"@] == JsonView::Text(v.candidate.branch)
            &&& m["action"@] == JsonView::Text("restacked"@)
            &&& m["parent"@] == JsonView::Text(v.parent)
            &&& m["before"@] == JsonView::Text(prefix(v.before, 7))
            &&& m["after"@] == JsonView::Text(prefix(after, 7))
            &&& m["redundant_commits"@] == JsonView::Number(v.redundant)
            &&& m.contains_key("method"@) <==> aligned
        },
{
    reveal_strlit("cmd");
    reveal_strlit("branch");
    reveal_strlit("action");
    reveal_strlit("method");
    reveal_strlit("parent");
    reveal_strlit("before");
    reveal_strlit("after");
    reveal_strlit("redundant_commits");
    assert("cmd"@.len() == 3);
    assert("branch"@.len() == 6);
    assert("action"@.len() == 6);
    assert("method"@.len() == 6);
    assert("parent"@.len() == 6);
    assert("before"@.len() == 6);
    assert("after"@.len() == 5);
    assert("redundant_commits"@.len() == 17);
    assert("branch"@[0] == 'b');
    assert("action"@[0] == 'a');
    assert("method"@[0] == 'm');
    assert("parent"@[0] == 'p');
    assert("branch"@[1] == 'r');
    assert("before"@[1] == 'e');
    assert("before"@[0] == 'b');
}

/// A receipt of a restack that left branches behind tells how many were moved and of each one left.
pub proof fn law_incomplete_receipt_tells_failures(cmd: Seq<char>, r: RestackReport)
    ensures
        incomplete_receipt(cmd, r) matches JsonView::Object(m) && {
            &&& m["cmd"@] == JsonView::Text(cmd)
            &&& m["restacked"@] == JsonView::Number(r.restacked as u64)
            &&& m["failed"@] matches JsonView::List(l) && l.len() == r.failures@.len() && forall|i: int|
                0 <= i < l.len() ==> #[trigger] l[i] == failure_receipt(r.failures@[i]@)
        },
{
    reveal_strlit("cmd");
    reveal_strlit("action");
    reveal_strlit("restacked");
    reveal_strlit("failed");
    assert("cmd"@.len() == 3);
    assert("action"@.len() == 6);
    assert("restacked"@.len() == 9);
    assert("failed"@.len() == 6);
    assert("action"@[0] == 'a');
    assert("failed"@[0] == 'f');
}

/// Of a branch left behind are told its name, its parent, and whether a conflict or an error was
/// the reason.
pub proof fn law_failure_is_told_in_full(f: FailureView)
    ensures
        failure_receipt(f) matches JsonView::Object(m) && {
            &&& m["branch"@] == JsonView::Text(f.branch)
            &&& m["parent"@] == JsonView::Text(f.parent)
            &&& f.message is None ==> m["reason"@] == JsonView::Text("conflict"@) && m["detail"@] == JsonView::Text(
                "rebase conflict"@,
            )
            &&& f.message is Some ==> m["reason"@] == JsonView::Text("error"@)
        },
{
    reveal_strlit("branch");
    reveal_strlit("parent");
    reveal_strlit("reason");
    reveal_strlit("detail");
    assert("branch"@.len() == 6);
    assert("parent"@.len() == 6);
    assert("reason"@.len() == 6);
    assert("detail"@.len() == 6);
    assert("branch"@[0] == 'b');
    assert("parent"@[0] == 'p');
    assert("reason"@[0] == 'r');
    assert("detail"@[0] == 'd');
}

/// A branch that was moved is told with its commits, and that nothing was left to replay exactly
/// where it was only set onto the tip; the next branch follows.
pub proof fn law_moved_branch_is_told(v: RestackView, after: Seq<char>)
    requires
        v.wf(),
        v.phase is Align || v.phase is Rebase,
    ensures
        ({
            let w = v.moved(after);
            &&& w.receipts == v.receipts.push(moved_receipt(v, v.phase is Align, after))
            &&& w.restacked == v.restacked.push(v.order[v.at])
            &&& w.failures == v.failures
            &&& w.at > v.at
        }),
{
    lemma_on_always();
}

} // verus!
