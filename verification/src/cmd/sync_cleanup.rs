//! Forgetting the branches whose work is done, one at a time. A branch is forgotten only when it
//! is gone from git; one that cannot be removed stays recorded, so that it can be tried again.

use crate::branch_map::{is_child, MetaView};
use crate::cmd::restack::receipt_views;
use crate::cmd::sync::{cleanup_reason, path_views, reason_for};
use crate::github::PrInfo;
use crate::json::{no_fields, Json, JsonObject, JsonView};
use crate::name_map::NameMap;
use crate::names::{rank_names, ranks};
use crate::stack::{
    children, forgotten, law_children_name_their_parent, law_forgetting_keeps_ground,
    law_forgetting_moves_only_children, StackState, StackView,
};
use crate::text::{opt_view, same, views};
use vstd::prelude::*;
use vstd::string::*;

verus! {

/// What the clean-up is waiting for.
#[derive(Clone, Copy, Debug, PartialEq, Eq, Structural)]
pub enum CleanupPhase {
    /// What git says of the branch.
    Observe,
    /// The process leaving the worktree that is to be removed.
    MoveOut,
    /// The removal of the branch's worktree.
    Remove,
    /// The switch to the trunk.
    Checkout,
    /// The deletion of the branch.
    Delete,
    /// Nothing.
    Finished,
}

/// What git says of a branch.
#[derive(Debug)]
pub struct CleanupFacts {
    pub branch_exists: bool,
    pub parent_exists: bool,
    /// Whether the trunk holds the branch's tip.
    pub tip_in_trunk: bool,
    /// Whether the branch differs in nothing from the trunk.
    pub diff_is_empty: bool,
    /// Why the branch's worktree must be left alone, if so.
    pub guard: Option<String>,
    /// Whether the process works inside the branch's worktree.
    pub inside: bool,
}

/// The answer to what the clean-up asked for.
#[derive(Debug)]
pub enum CleanupReply {
    Observed(CleanupFacts),
    Done,
    Failed(String),
}

/// The contents of a `Cleanup`.
#[verifier::ext_equal]
pub struct CleanupView {
    pub state: StackView,
    pub candidates: Seq<Seq<char>>,
    pub prs: Map<Seq<char>, PrInfo>,
    pub worktrees: Map<Seq<char>, Seq<char>>,
    pub original_branch: Seq<char>,
    pub phase: CleanupPhase,
    /// The branch in work.
    pub at: int,
    /// Whether the process works inside its worktree.
    pub inside: bool,
    /// Why it is cleaned up.
    pub reason: Seq<char>,
    pub cleaned: Seq<Seq<char>>,
    /// The branches that got another parent.
    pub moved: Set<Seq<char>>,
    /// Whether the worktree of the process was removed.
    pub left_worktree: bool,
    pub receipts: Seq<JsonView>,
}

/// The receipt for a branch that was kept.
pub open spec fn kept_receipt(
    branch: Seq<char>,
    reason: Seq<char>,
    parent: Seq<char>,
    worktree: Option<Seq<char>>,
) -> JsonView {
    let base = no_fields().insert("cmd"@, JsonView::Text("sync"@)).insert(
        "branch"@,
        JsonView::Text(branch),
    ).insert("action"@, JsonView::Text("cleanup_skipped"@)).insert(
        "reason"@,
        JsonView::Text(reason),
    ).insert("parent"@, JsonView::Text(parent));
    JsonView::Object(
        match worktree {
            Some(w) => base.insert("worktree"@, JsonView::Text(w)),
            None => base,
        },
    )
}

/// The receipt for a branch that was cleaned up; its parent is named where the branch had been
/// deleted by other means.
pub open spec fn cleaned_receipt(
    branch: Seq<char>,
    reason: Seq<char>,
    parent: Option<Seq<char>>,
) -> JsonView {
    let base = no_fields().insert("cmd"@, JsonView::Text("sync"@)).insert(
        "branch"@,
        JsonView::Text(branch),
    ).insert("action"@, JsonView::Text("cleaned"@)).insert("reason"@, JsonView::Text(reason));
    JsonView::Object(
        match parent {
            Some(p) => base.insert("parent"@, JsonView::Text(p)),
            None => base,
        },
    )
}

impl CleanupView {
    /// The branch in work.
    pub open spec fn branch(self) -> Seq<char> {
        self.candidates[self.at]
    }

    /// The recorded parent of the branch in work.
    pub open spec fn parent(self) -> Seq<char> {
        self.state.branches[self.branch()].parent
    }

    /// The worktree of the branch in work.
    pub open spec fn worktree(self) -> Option<Seq<char>> {
        if self.worktrees.contains_key(self.branch()) {
            Some(self.worktrees[self.branch()])
        } else {
            None
        }
    }

    /// The pull request of the branch in work.
    pub open spec fn pr(self) -> Option<PrInfo> {
        if self.prs.contains_key(self.branch()) {
            Some(self.prs[self.branch()])
        } else {
            None
        }
    }

    /// Goes on with the first recorded candidate from `i` on.
    pub open spec fn on(self, i: int) -> CleanupView
        decreases self.candidates.len() - i,
    {
        if i >= self.candidates.len() {
            CleanupView { phase: CleanupPhase::Finished, at: i, ..self }
        } else if self.state.managed(self.candidates[i]) {
            CleanupView { phase: CleanupPhase::Observe, at: i, ..self }
        } else {
            self.on(i + 1)
        }
    }

    /// Keeps the branch in work.
    pub open spec fn keep(self, reason: Seq<char>, worktree: Option<Seq<char>>) -> CleanupView {
        CleanupView {
            receipts: self.receipts.push(
                kept_receipt(self.branch(), reason, self.parent(), worktree),
            ),
            ..self
        }.on(self.at + 1)
    }

    /// Forgets the branch in work; its children are stacked on `onto`.
    pub open spec fn forget(self, onto: Seq<char>, receipt: JsonView) -> CleanupView {
        let b = self.branch();
        CleanupView {
            state: self.state.with_branches(forgotten(self.state.branches, b, onto)),
            cleaned: self.cleaned.push(b),
            moved: self.moved.union(children(self.state.branches, b)),
            receipts: self.receipts.push(receipt),
            ..self
        }.on(self.at + 1)
    }

    /// Goes on once the branch in work has no worktree.
    pub open spec fn bare(self) -> CleanupView {
        CleanupView {
            phase: if self.branch() == self.original_branch && !self.left_worktree {
                CleanupPhase::Checkout
            } else {
                CleanupPhase::Delete
            },
            ..self
        }
    }

    /// Why the branch in work is cleaned up, if it is.
    pub open spec fn verdict(self, f: CleanupFacts) -> Option<Seq<char>> {
        let via_git = self.pr() is None && f.tip_in_trunk;
        let via_diff = self.pr() is None && !via_git
            && self.state.branches[self.branch()].pr_number is None && f.diff_is_empty;
        reason_for(self.pr(), via_git, via_diff)
    }

    /// Holds the branch in work against what git says.
    pub open spec fn observe(self, f: CleanupFacts) -> CleanupView {
        if !f.branch_exists {
            self.forget(
                if f.parent_exists {
                    self.parent()
                } else {
                    self.state.trunk
                },
                cleaned_receipt(self.branch(), "deleted_outside_ez"@, Some(self.parent())),
            )
        } else {
            match self.verdict(f) {
                None => self.on(self.at + 1),
                Some(reason) => {
                    let v = CleanupView { reason: reason, inside: f.inside, ..self };
                    match self.worktree() {
                        None => v.bare(),
                        Some(w) => if f.guard is Some {
                            v.keep("worktree_locked"@, Some(w))
                        } else {
                            CleanupView {
                                phase: if f.inside {
                                    CleanupPhase::MoveOut
                                } else {
                                    CleanupPhase::Remove
                                },
                                ..v
                            }
                        },
                    }
                },
            }
        }
    }

    /// The clean-up after a reply. A reply that it does not wait for changes nothing.
    pub open spec fn step(self, reply: CleanupReply) -> CleanupView {
        match (self.phase, reply) {
            (CleanupPhase::Observe, CleanupReply::Observed(f)) => self.observe(f),
            (CleanupPhase::MoveOut, CleanupReply::Done) => CleanupView {
                phase: CleanupPhase::Remove,
                ..self
            },
            (CleanupPhase::MoveOut, CleanupReply::Failed(_)) => self.keep(
                "cwd_move_failed"@,
                self.worktree(),
            ),
            (CleanupPhase::Remove, CleanupReply::Done) => CleanupView {
                left_worktree: self.left_worktree || self.inside,
                ..self
            }.bare(),
            (CleanupPhase::Remove, CleanupReply::Failed(_)) => self.keep(
                "worktree_remove_failed"@,
                self.worktree(),
            ),
            (CleanupPhase::Checkout, CleanupReply::Done) => CleanupView {
                phase: CleanupPhase::Delete,
                ..self
            },
            (CleanupPhase::Checkout, CleanupReply::Failed(_)) => self.keep(
                "checkout_failed"@,
                None,
            ),
            (CleanupPhase::Delete, CleanupReply::Done) => self.forget(
                self.parent(),
                cleaned_receipt(self.branch(), self.reason, None),
            ),
            (CleanupPhase::Delete, CleanupReply::Failed(_)) => self.keep(
                "branch_delete_failed"@,
                None,
            ),
            _ => self,
        }
    }

    /// What holds throughout the clean-up.
    pub open spec fn wf(self) -> bool {
        &&& 0 <= self.at <= self.candidates.len()
        &&& self.phase is Finished || (self.at < self.candidates.len() && self.state.managed(
            self.branch(),
        ))
        &&& (self.phase is MoveOut || self.phase is Remove) ==> self.worktree() is Some
    }
}

#[derive(Debug)]
struct CleanupData {
    state: StackState,
    candidates: Vec<String>,
    prs: NameMap<PrInfo>,
    worktrees: NameMap<String>,
    original_branch: String,
    phase: CleanupPhase,
    at: usize,
    inside: bool,
    reason: String,
    cleaned: Vec<String>,
    moved: Vec<String>,
    left_worktree: bool,
    receipts: Vec<Json>,
}

impl View for CleanupData {
    type V = CleanupView;

    closed spec fn view(&self) -> CleanupView {
        CleanupView {
            state: self.state@,
            candidates: views(self.candidates@),
            prs: self.prs@,
            worktrees: path_views(self.worktrees@),
            original_branch: self.original_branch@,
            phase: self.phase,
            at: self.at as int,
            inside: self.inside,
            reason: self.reason@,
            cleaned: views(self.cleaned@),
            moved: views(self.moved@).to_set(),
            left_worktree: self.left_worktree,
            receipts: receipt_views(self.receipts@),
        }
    }
}

fn kept_entry(branch: &str, reason: &str, parent: &str, worktree: &Option<String>) -> (r: Json)
    ensures
        r@ == kept_receipt(branch@, reason@, parent@, opt_view(*worktree)),
{
    let base: JsonObject = JsonObject::new().field("cmd", Json::text("sync")).field(
        "branch",
        Json::text(branch),
    ).field("action", Json::text("cleanup_skipped")).field("reason", Json::text(reason)).field(
        "parent",
        Json::text(parent),
    );
    let all: JsonObject = match worktree {
        Some(w) => base.field("worktree", Json::text(w)),
        None => base,
    };
    all.done()
}

fn cleaned_entry(branch: &str, reason: &str, parent: &Option<String>) -> (r: Json)
    ensures
        r@ == cleaned_receipt(branch@, reason@, opt_view(*parent)),
{
    let base: JsonObject = JsonObject::new().field("cmd", Json::text("sync")).field(
        "branch",
        Json::text(branch),
    ).field("action", Json::text("cleaned")).field("reason", Json::text(reason));
    let all: JsonObject = match parent {
        Some(p) => base.field("parent", Json::text(p)),
        None => base,
    };
    all.done()
}

impl CleanupData {
    fn on(&mut self, i: usize)
        requires
            i <= old(self).candidates.len(),
        ensures
            final(self)@ == old(self)@.on(i as int),
        decreases old(self).candidates.len() - i,
    {
        if i >= self.candidates.len() {
            self.phase = CleanupPhase::Finished;
            self.at = i;
            return;
        }
        assert(self@.candidates[i as int] == self.candidates@[i as int]@);
        if self.state.is_managed(&self.candidates[i]) {
            self.phase = CleanupPhase::Observe;
            self.at = i;
            return;
        }
        self.on(i + 1);
    }

    fn parent(&self) -> (r: String)
        requires
            self@.wf(),
            !(self.phase is Finished),
        ensures
            r@ == self@.parent(),
    {
        assert(self@.branch() == self.candidates@[self.at as int]@);
        match self.state.branches.get(&self.candidates[self.at]) {
            Some(meta) => meta.parent.clone(),
            None => String::new(),
        }
    }

    fn worktree(&self) -> (r: Option<String>)
        requires
            self.at < self.candidates.len(),
        ensures
            opt_view(r) == self@.worktree(),
    {
        assert(self@.branch() == self.candidates@[self.at as int]@);
        match self.worktrees.get(&self.candidates[self.at]) {
            Some(path) => Some(path.clone()),
            None => None,
        }
    }

    fn note(&mut self, receipt: Json)
        ensures
            final(self)@ == (CleanupView {
                receipts: old(self)@.receipts.push(receipt@),
                ..old(self)@
            }),
            final(self).at == old(self).at,
            final(self).candidates == old(self).candidates,
    {
        let ghost held = receipt_views(self.receipts@);
        let ghost j = receipt@;
        self.receipts.push(receipt);
        assert(receipt_views(self.receipts@) =~= held.push(j));
    }

    fn keep(&mut self, reason: &str, worktree: Option<String>)
        requires
            old(self)@.wf(),
            !(old(self).phase is Finished),
        ensures
            final(self)@ == old(self)@.keep(reason@, opt_view(worktree)),
    {
        let parent: String = self.parent();
        assert(self.at < self.candidates.len());
        let entry: Json = kept_entry(&self.candidates[self.at], reason, &parent, &worktree);
        let next: usize = self.at + 1;
        self.note(entry);
        self.on(next);
    }

    fn forget(&mut self, onto: &str, receipt: Json)
        requires
            old(self)@.wf(),
            !(old(self).phase is Finished),
        ensures
            final(self)@ == old(self)@.forget(onto@, receipt@),
    {
        let ghost start = self@;
        assert(self.at < self.candidates.len());
        let branch: String = self.candidates[self.at].clone();
        assert(start.branch() == branch@);
        let next: usize = self.at + 1;
        self.note(receipt);
        let mut kids: Vec<String> = self.state.reparent_children_preserving_parent_head(
            &branch,
            onto,
        );
        self.state.remove_branch(&branch);
        let ghost m = start.state.branches;
        let ghost before = self.moved@;
        let ghost kid_names = views(kids@);
        let ghost kid_seq = kids@;
        self.moved.append(&mut kids);
        proof {
            assert(views(self.moved@) =~= views(before) + kid_names);
            vstd::seq_lib::seq_to_set_distributes_over_add(views(before), kid_names);
            assert(kid_names.to_set() =~= children(m, branch@)) by {
                assert forall|k: Seq<char>| kid_names.to_set().contains(k) == children(
                    m,
                    branch@,
                ).contains(k) by {
                    assert(kid_names.contains(k) <==> is_child(m, branch@, k));
                }
            }
            assert(self.state@ == start.state.with_branches(forgotten(m, branch@, onto@)));
        }
        let ghost held = views(self.cleaned@);
        self.cleaned.push(branch);
        assert(views(self.cleaned@) =~= held.push(start.branch()));
        self.on(next);
    }

    fn bare(&mut self)
        requires
            old(self).at < old(self).candidates.len(),
        ensures
            final(self)@ == old(self)@.bare(),
    {
        assert(self@.branch() == self.candidates@[self.at as int]@);
        self.phase = if same(&self.candidates[self.at], &self.original_branch)
            && !self.left_worktree {
            CleanupPhase::Checkout
        } else {
            CleanupPhase::Delete
        };
    }

    fn verdict(&self, f: &CleanupFacts) -> (r: Option<&'static str>)
        requires
            self@.wf(),
            !(self.phase is Finished),
        ensures
            (match r {
                Some(t) => Some(t@),
                None => None,
            }) == self@.verdict(*f),
    {
        let branch: &String = &self.candidates[self.at];
        assert(self@.branch() == branch@);
        let pr: Option<&PrInfo> = self.prs.get(branch);
        let numbered: bool = match self.state.branches.get(branch) {
            Some(meta) => meta.pr_number.is_some(),
            None => false,
        };
        let via_git: bool = pr.is_none() && f.tip_in_trunk;
        let via_diff: bool = pr.is_none() && !via_git && !numbered && f.diff_is_empty;
        cleanup_reason(pr, via_git, via_diff)
    }

    fn observe(&mut self, f: CleanupFacts)
        requires
            old(self)@.wf(),
            old(self).phase is Observe,
        ensures
            final(self)@ == old(self)@.observe(f),
    {
        let parent: String = self.parent();
        assert(self.at < self.candidates.len());
        if !f.branch_exists {
            let onto: String = if f.parent_exists {
                parent.clone()
            } else {
                self.state.trunk.clone()
            };
            let entry: Json = cleaned_entry(
                &self.candidates[self.at],
                "deleted_outside_ez",
                &Some(parent),
            );
            self.forget(&onto, entry);
            return;
        }
        let next: usize = self.at + 1;
        match self.verdict(&f) {
            None => self.on(next),
            Some(reason) => {
                self.reason = reason.to_owned();
                self.inside = f.inside;
                match self.worktree() {
                    None => self.bare(),
                    Some(w) => {
                        if f.guard.is_some() {
                            self.keep("worktree_locked", Some(w));
                        } else {
                            self.phase = if f.inside {
                                CleanupPhase::MoveOut
                            } else {
                                CleanupPhase::Remove
                            };
                        }
                    },
                }
            },
        }
    }

    fn step(&mut self, reply: CleanupReply)
        requires
            old(self)@.wf(),
        ensures
            final(self)@ == old(self)@.step(reply),
    {
        match (self.phase, reply) {
            (CleanupPhase::Observe, CleanupReply::Observed(f)) => self.observe(f),
            (CleanupPhase::MoveOut, CleanupReply::Done) => {
                self.phase = CleanupPhase::Remove;
            },
            (CleanupPhase::MoveOut, CleanupReply::Failed(_)) => {
                let w: Option<String> = self.worktree();
                self.keep("cwd_move_failed", w);
            },
            (CleanupPhase::Remove, CleanupReply::Done) => {
                self.left_worktree = self.left_worktree || self.inside;
                self.bare();
            },
            (CleanupPhase::Remove, CleanupReply::Failed(_)) => {
                let w: Option<String> = self.worktree();
                self.keep("worktree_remove_failed", w);
            },
            (CleanupPhase::Checkout, CleanupReply::Done) => {
                self.phase = CleanupPhase::Delete;
            },
            (CleanupPhase::Checkout, CleanupReply::Failed(_)) => {
                self.keep("checkout_failed", None);
            },
            (CleanupPhase::Delete, CleanupReply::Done) => {
                let parent: String = self.parent();
                let entry: Json = cleaned_entry(
                    &self.candidates[self.at],
                    &self.reason,
                    &None,
                );
                self.forget(&parent, entry);
            },
            (CleanupPhase::Delete, CleanupReply::Failed(_)) => {
                self.keep("branch_delete_failed", None);
            },
            _ => {},
        }
    }
}

/// Going on changes nothing but the branch in work.
proof fn lemma_on(v: CleanupView, i: int)
    requires
        0 <= i <= v.candidates.len(),
    ensures
        ({
            let w = v.on(i);
            &&& w == (CleanupView { phase: w.phase, at: w.at, ..v })
            &&& i <= w.at <= v.candidates.len()
            &&& w.phase == CleanupPhase::Finished && w.at == v.candidates.len() || w.phase
                == CleanupPhase::Observe && w.at < v.candidates.len() && v.state.managed(
                v.candidates[w.at],
            )
        }),
    decreases v.candidates.len() - i,
{
    if i < v.candidates.len() && !v.state.managed(v.candidates[i]) {
        lemma_on(v, i + 1);
    }
}

proof fn lemma_on_always()
    ensures
        forall|v: CleanupView, i: int|
            0 <= i <= v.candidates.len() ==> {
                let w = #[trigger] v.on(i);
                &&& w == (CleanupView { phase: w.phase, at: w.at, ..v })
                &&& i <= w.at <= v.candidates.len()
                &&& w.phase == CleanupPhase::Finished && w.at == v.candidates.len() || w.phase
                    == CleanupPhase::Observe && w.at < v.candidates.len() && v.state.managed(
                    v.candidates[w.at],
                )
            },
{
    assert forall|v: CleanupView, i: int| 0 <= i <= v.candidates.len() implies {
        let w = #[trigger] v.on(i);
        &&& w == (CleanupView { phase: w.phase, at: w.at, ..v })
        &&& i <= w.at <= v.candidates.len()
        &&& w.phase == CleanupPhase::Finished && w.at == v.candidates.len() || w.phase
            == CleanupPhase::Observe && w.at < v.candidates.len() && v.state.managed(
            v.candidates[w.at],
        )
    } by {
        lemma_on(v, i);
    }
}

/// Every reply keeps what holds throughout the clean-up.
pub proof fn law_cleanup_keeps_order(v: CleanupView, reply: CleanupReply)
    requires
        v.wf(),
    ensures
        v.step(reply).wf(),
{
    lemma_on_always();
}

/// A step of the clean-up that fails leaves the branch recorded as it was.
pub proof fn law_failed_cleanup_keeps_branch(v: CleanupView, text: String)
    requires
        v.wf(),
    ensures
        v.step(CleanupReply::Failed(text)).state == v.state,
        v.step(CleanupReply::Failed(text)).cleaned == v.cleaned,
{
    lemma_on_always();
}

/// A branch that git still has is never cleaned up while its pull request is neither merged nor
/// closed, whatever else git says of it.
pub proof fn law_open_pull_request_is_kept(v: CleanupView, f: CleanupFacts)
    requires
        v.wf(),
        v.phase is Observe,
        f.branch_exists,
        v.pr() matches Some(pr) && !pr.merged && pr.state@ != "CLOSED"@,
    ensures
        v.step(CleanupReply::Observed(f)).state == v.state,
        v.step(CleanupReply::Observed(f)) == v.on(v.at + 1),
{
    lemma_on_always();
}

/// A branch that git still has is never cleaned up while its worktree is locked or leased: the
/// stack stays, and the clean-up passes on to the next branch.
pub proof fn law_locked_worktree_is_kept(v: CleanupView, f: CleanupFacts)
    requires
        v.wf(),
        v.phase is Observe,
        f.branch_exists,
        f.guard is Some,
        v.worktree() is Some,
    ensures
        v.step(CleanupReply::Observed(f)).state == v.state,
        v.step(CleanupReply::Observed(f)).cleaned == v.cleaned,
        v.step(CleanupReply::Observed(f)).phase is Observe || v.step(
            CleanupReply::Observed(f),
        ).phase is Finished,
        v.step(CleanupReply::Observed(f)).at > v.at,
{
    lemma_on_always();
}

/// The clean-up after all of `replies`.
pub open spec fn run(v: CleanupView, replies: Seq<CleanupReply>) -> CleanupView
    decreases replies.len(),
{
    if replies.len() == 0 {
        v
    } else {
        run(v, replies.drop_last()).step(replies.last())
    }
}

/// Whether the stack `t` is the stack `s` with the branches of `gone` forgotten: those that are
/// left keep everything but their parents, and settings stay.
pub open spec fn lost_only(s: StackView, t: StackView, gone: Seq<Seq<char>>) -> bool {
    &&& t == s.with_branches(t.branches)
    &&& forall|b: Seq<char>| #[trigger]
        t.branches.contains_key(b) <==> s.branches.contains_key(b) && !gone.contains(b)
    &&& forall|b: Seq<char>| #[trigger]
        t.branches.contains_key(b) ==> t.branches[b] == (MetaView {
            parent: t.branches[b].parent,
            ..s.branches[b]
        })
}

proof fn lemma_forget_lost_only(s: StackView, v: CleanupView, onto: Seq<char>, receipt: JsonView)
    requires
        v.wf(),
        !(v.phase is Finished),
        lost_only(s, v.state, v.cleaned),
    ensures
        lost_only(s, v.forget(onto, receipt).state, v.forget(onto, receipt).cleaned),
{
    lemma_on_always();
    let w = v.forget(onto, receipt);
    let b = v.branch();
    assert(w.cleaned =~= v.cleaned.push(b));
    assert(w.state.branches == forgotten(v.state.branches, b, onto));
    assert forall|k: Seq<char>| #[trigger]
        w.state.branches.contains_key(k) <==> s.branches.contains_key(k) && !w.cleaned.contains(
            k,
        ) by {
        vstd::seq_lib::lemma_seq_contains_after_push(v.cleaned, b, k);
        assert(v.state.branches.contains_key(k) <==> s.branches.contains_key(k)
            && !v.cleaned.contains(k));
    }
    assert forall|k: Seq<char>| #[trigger] w.state.branches.contains_key(k) implies (
    w.state.branches[k] == (MetaView { parent: w.state.branches[k].parent, ..s.branches[k] })) by {
        assert(v.state.branches.contains_key(k));
    }
}

proof fn lemma_step_lost_only(s: StackView, v: CleanupView, reply: CleanupReply)
    requires
        v.wf(),
        lost_only(s, v.state, v.cleaned),
    ensures
        lost_only(s, v.step(reply).state, v.step(reply).cleaned),
{
    lemma_on_always();
    match (v.phase, reply) {
        (CleanupPhase::Observe, CleanupReply::Observed(f)) => {
            let receipt = cleaned_receipt(v.branch(), "deleted_outside_ez"@, Some(v.parent()));
            lemma_forget_lost_only(s, v, v.parent(), receipt);
            lemma_forget_lost_only(s, v, v.state.trunk, receipt);
        },
        (CleanupPhase::Delete, CleanupReply::Done) => {
            lemma_forget_lost_only(
                s,
                v,
                v.parent(),
                cleaned_receipt(v.branch(), v.reason, None),
            );
        },
        _ => {},
    }
}

/// Whatever is replied, the clean-up forgets exactly the branches it lists as cleaned, and
/// changes nothing else but the parents of branches that are left: the commit each was last
/// stacked on stays recorded. A stack that stands on the trunk still does.
pub proof fn law_cleanup_forgets_only_cleaned(v: CleanupView, replies: Seq<CleanupReply>)
    requires
        v.wf(),
        v.cleaned.len() == 0,
        !v.candidates.contains(v.state.trunk),
    ensures
        run(v, replies).wf(),
        lost_only(v.state, run(v, replies).state, run(v, replies).cleaned),
        v.state.grounded() ==> run(v, replies).state.grounded(),
        run(v, replies).candidates == v.candidates,
    decreases replies.len(),
{
    if replies.len() > 0 {
        let u = run(v, replies.drop_last());
        law_cleanup_forgets_only_cleaned(v, replies.drop_last());
        law_cleanup_keeps_order(u, replies.last());
        lemma_step_lost_only(v.state, u, replies.last());
        lemma_on_always();
        if v.state.grounded() && !(u.phase is Finished) {
            assert(v.candidates.contains(u.branch()));
            law_forgetting_keeps_ground(u.state, u.branch(), u.parent());
            law_forgetting_keeps_ground(u.state, u.branch(), u.state.trunk);
        }
    }
}

/// What the clean-up asks for next.
#[derive(Debug)]
pub enum CleanupAction {
    /// What git says of the branch and its parent.
    Observe { branch: String, parent: String, worktree: Option<String> },
    /// Leave the worktree for the main one.
    MoveOut(String),
    /// Remove the worktree.
    Remove(String),
    /// Switch to the trunk.
    Checkout(String),
    /// Delete the branch, if it is still there.
    Delete(String),
    /// Nothing more.
    Finished,
}

/// The contents of a `CleanupAction`.
#[verifier::ext_equal]
pub enum CleanupActionView {
    Observe { branch: Seq<char>, parent: Seq<char>, worktree: Option<Seq<char>> },
    MoveOut(Seq<char>),
    Remove(Seq<char>),
    Checkout(Seq<char>),
    Delete(Seq<char>),
    Finished,
}

impl View for CleanupAction {
    type V = CleanupActionView;

    open spec fn view(&self) -> CleanupActionView {
        match *self {
            CleanupAction::Observe { branch, parent, worktree } => CleanupActionView::Observe {
                branch: branch@,
                parent: parent@,
                worktree: opt_view(worktree),
            },
            CleanupAction::MoveOut(p) => CleanupActionView::MoveOut(p@),
            CleanupAction::Remove(p) => CleanupActionView::Remove(p@),
            CleanupAction::Checkout(b) => CleanupActionView::Checkout(b@),
            CleanupAction::Delete(b) => CleanupActionView::Delete(b@),
            CleanupAction::Finished => CleanupActionView::Finished,
        }
    }
}

impl CleanupView {
    /// What the clean-up asks for next.
    pub open spec fn action(self) -> CleanupActionView {
        match self.phase {
            CleanupPhase::Observe => CleanupActionView::Observe {
                branch: self.branch(),
                parent: self.parent(),
                worktree: self.worktree(),
            },
            CleanupPhase::MoveOut => CleanupActionView::MoveOut(self.worktree()->0),
            CleanupPhase::Remove => CleanupActionView::Remove(self.worktree()->0),
            CleanupPhase::Checkout => CleanupActionView::Checkout(self.state.trunk),
            CleanupPhase::Delete => CleanupActionView::Delete(self.branch()),
            CleanupPhase::Finished => CleanupActionView::Finished,
        }
    }
}

/// A clean-up in progress.
#[derive(Debug)]
pub struct Cleanup {
    data: CleanupData,
}

impl View for Cleanup {
    type V = CleanupView;

    closed spec fn view(&self) -> CleanupView {
        self.data@
    }
}

/// A clean-up at its start.
pub open spec fn fresh_cleanup(
    state: StackView,
    candidates: Seq<Seq<char>>,
    prs: Map<Seq<char>, PrInfo>,
    worktrees: Map<Seq<char>, Seq<char>>,
    original_branch: Seq<char>,
) -> CleanupView {
    CleanupView {
        state,
        candidates,
        prs,
        worktrees,
        original_branch,
        phase: CleanupPhase::Finished,
        at: 0,
        inside: false,
        reason: Seq::empty(),
        cleaned: Seq::empty(),
        moved: Set::empty(),
        left_worktree: false,
        receipts: Seq::empty(),
    }.on(0)
}

/// What a clean-up leaves behind.
#[derive(Debug)]
pub struct CleanupResult {
    pub state: StackState,
    pub cleaned: Vec<String>,
    /// The branches that got another parent, by name.
    pub moved: Vec<String>,
    /// Whether the worktree of the process was removed.
    pub left_worktree: bool,
    pub receipts: Vec<Json>,
}

impl Cleanup {
    #[verifier::type_invariant]
    spec fn in_order(self) -> bool {
        self.data@.wf()
    }

    /// Starts to clean up the candidates, given their pull requests and worktrees.
    pub fn begin(
        state: &StackState,
        candidates: Vec<String>,
        prs: NameMap<PrInfo>,
        worktrees: NameMap<String>,
        original_branch: &str,
    ) -> (r: Cleanup)
        ensures
            r@ == fresh_cleanup(
                state@,
                views(candidates@),
                prs@,
                path_views(worktrees@),
                original_branch@,
            ),
    {
        let mut data = CleanupData {
            state: state.copy(),
            candidates,
            prs,
            worktrees,
            original_branch: original_branch.to_owned(),
            phase: CleanupPhase::Finished,
            at: 0,
            inside: false,
            reason: String::new(),
            cleaned: Vec::new(),
            moved: Vec::new(),
            left_worktree: false,
            receipts: Vec::new(),
        };
        proof {
            assert(views(data.cleaned@) =~= Seq::<Seq<char>>::empty());
            assert(views(data.moved@).to_set() =~= Set::<Seq<char>>::empty());
            assert(receipt_views(data.receipts@) =~= Seq::<JsonView>::empty());
            lemma_on(data@, 0);
        }
        data.on(0);
        Cleanup { data }
    }

    /// The clean-up after a reply to what it asked for.
    pub fn step(self, reply: CleanupReply) -> (r: Cleanup)
        ensures
            r@ == self@.step(reply),
    {
        proof {
            use_type_invariant(&self);
            law_cleanup_keeps_order(self@, reply);
        }
        let mut data = self.data;
        data.step(reply);
        Cleanup { data }
    }

    /// What the clean-up asks for next.
    pub fn action(&self) -> (r: CleanupAction)
        ensures
            r@ == self@.action(),
    {
        proof {
            use_type_invariant(self);
        }
        let d: &CleanupData = &self.data;
        match d.phase {
            CleanupPhase::Observe => CleanupAction::Observe {
                branch: d.candidates[d.at].clone(),
                parent: d.parent(),
                worktree: d.worktree(),
            },
            CleanupPhase::MoveOut => match d.worktree() {
                Some(p) => CleanupAction::MoveOut(p),
                None => CleanupAction::MoveOut(String::new()),
            },
            CleanupPhase::Remove => match d.worktree() {
                Some(p) => CleanupAction::Remove(p),
                None => CleanupAction::Remove(String::new()),
            },
            CleanupPhase::Checkout => CleanupAction::Checkout(d.state.trunk.clone()),
            CleanupPhase::Delete => CleanupAction::Delete(d.candidates[d.at].clone()),
            CleanupPhase::Finished => CleanupAction::Finished,
        }
    }

    /// What the clean-up leaves behind.
    pub fn finish(self) -> (r: CleanupResult)
        ensures
            r.state@ == self@.state,
            views(r.cleaned@) == self@.cleaned,
            ranks(views(r.moved@), self@.moved),
            r.left_worktree == self@.left_worktree,
            receipt_views(r.receipts@) == self@.receipts,
    {
        let d = self.data;
        let moved: Vec<String> = rank_names(&d.moved);
        CleanupResult {
            state: d.state,
            cleaned: d.cleaned,
            moved,
            left_worktree: d.left_worktree,
            receipts: d.receipts,
        }
    }
}

/// Once git has deleted the branch in work, it is forgotten, each of its children gets exactly the
/// parent that it had, and every other branch keeps its own.
pub proof fn law_children_go_to_their_grandparent(v: CleanupView, k: Seq<char>)
    requires
        v.wf(),
        v.phase is Delete,
    ensures
        ({
            let b = v.candidates[v.at];
            let m = v.state.branches;
            let w = v.step(CleanupReply::Done);
            let after = w.state.branches;
            &&& w.state.trunk == v.state.trunk
            &&& w.cleaned == v.cleaned.push(b)
            &&& after.contains_key(k) <==> m.contains_key(k) && k != b
            &&& m.contains_key(k) && k != b && m[k].parent == b ==> {
                &&& after[k].parent == m[b].parent
                &&& after[k].parent_head == m[k].parent_head
                &&& after[k].pr_number == m[k].pr_number
                &&& w.moved.contains(k)
            }
            &&& m.contains_key(k) && k != b && m[k].parent != b ==> {
                &&& after[k] == m[k]
                &&& w.moved.contains(k) == v.moved.contains(k)
            }
        }),
{
    lemma_on_always();
    law_forgetting_moves_only_children(v.state.branches, v.branch(), v.parent(), k);
    law_children_name_their_parent(v.state.branches, v.branch(), k);
}

/// A branch that git no longer has is forgotten too. Its children get its parent where git has
/// that, and else the trunk; every other branch keeps its own.
pub proof fn law_vanished_branch_is_forgotten(v: CleanupView, f: CleanupFacts, k: Seq<char>)
    requires
        v.wf(),
        v.phase is Observe,
        !f.branch_exists,
    ensures
        ({
            let b = v.candidates[v.at];
            let m = v.state.branches;
            let w = v.step(CleanupReply::Observed(f));
            let after = w.state.branches;
            &&& w.cleaned == v.cleaned.push(b)
            &&& after.contains_key(k) <==> m.contains_key(k) && k != b
            &&& m.contains_key(k) && k != b && m[k].parent == b ==> {
                &&& f.parent_exists ==> after[k].parent == m[b].parent
                &&& !f.parent_exists ==> after[k].parent == v.state.trunk
                &&& after[k].parent_head == m[k].parent_head
                &&& w.moved.contains(k)
            }
            &&& m.contains_key(k) && k != b && m[k].parent != b ==> after[k] == m[k]
        }),
{
    lemma_on_always();
    law_forgetting_moves_only_children(v.state.branches, v.branch(), v.parent(), k);
    law_forgetting_moves_only_children(v.state.branches, v.branch(), v.state.trunk, k);
    law_children_name_their_parent(v.state.branches, v.branch(), k);
}

/// A branch that git has, whose pull request is merged or closed, is taken down: its worktree
/// first, where it has one that is not locked, and then the branch, which is left first where it
/// is checked out.
pub proof fn law_finished_pull_request_is_cleaned(v: CleanupView, f: CleanupFacts)
    requires
        v.wf(),
        v.phase is Observe,
        f.branch_exists,
        v.prs.contains_key(v.candidates[v.at]),
        v.prs[v.candidates[v.at]].merged || v.prs[v.candidates[v.at]].state@ == "CLOSED"@,
    ensures
        ({
            let b = v.candidates[v.at];
            let w = v.step(CleanupReply::Observed(f));
            let lodged = v.worktrees.contains_key(b);
            &&& w.state == v.state
            &&& !lodged && (b != v.original_branch || v.left_worktree) ==> w.phase is Delete
                && w.at == v.at
            &&& !lodged && b == v.original_branch && !v.left_worktree ==> w.phase is Checkout
                && w.at == v.at
            &&& lodged && f.guard is None && f.inside ==> w.phase is MoveOut && w.at == v.at
            &&& lodged && f.guard is None && !f.inside ==> w.phase is Remove && w.at == v.at
            &&& !lodged || f.guard is None ==> w.reason == (
            if v.prs[b].merged {
                "merged"@
            } else {
                "pr_closed"@
            })
        }),
{
    lemma_on_always();
}

/// Without a pull request, a branch that git has is taken down exactly where the trunk holds its
/// tip, or none was ever recorded and it differs in nothing from the trunk.
pub proof fn law_merged_branch_is_cleaned(v: CleanupView, f: CleanupFacts)
    requires
        v.wf(),
        v.phase is Observe,
        f.branch_exists,
        !v.prs.contains_key(v.candidates[v.at]),
        !v.worktrees.contains_key(v.candidates[v.at]),
    ensures
        ({
            let b = v.candidates[v.at];
            let w = v.step(CleanupReply::Observed(f));
            let done = f.tip_in_trunk || (v.state.branches[b].pr_number is None
                && f.diff_is_empty);
            &&& w.state == v.state
            &&& done ==> (w.phase is Delete || w.phase is Checkout) && w.at == v.at
            &&& !done ==> w.at > v.at && w.receipts == v.receipts && w.cleaned == v.cleaned
        }),
{
    lemma_on_always();
}

/// A branch is deleted only after its worktree is gone and it is not checked out, and the process
/// leaves a worktree before that is removed.
pub proof fn law_cleanup_goes_step_by_step(v: CleanupView)
    requires
        v.wf(),
    ensures
        v.phase is MoveOut ==> v.step(CleanupReply::Done).phase is Remove && v.step(
            CleanupReply::Done,
        ).at == v.at,
        v.phase is Remove ==> ({
            let w = v.step(CleanupReply::Done);
            &&& w.at == v.at
            &&& w.left_worktree == (v.left_worktree || v.inside)
            &&& w.phase is Checkout || w.phase is Delete
            &&& w.phase is Checkout <==> v.candidates[v.at] == v.original_branch
                && !w.left_worktree
        }),
        v.phase is Checkout ==> v.step(CleanupReply::Done).phase is Delete && v.step(
            CleanupReply::Done,
        ).at == v.at,
        v.phase is MoveOut || v.phase is Remove || v.phase is Checkout ==> v.step(
            CleanupReply::Done,
        ).state == v.state,
{
}

/// No recorded candidate is passed over: between the branch in work and the next one in work only
/// such stand that are no longer recorded.
pub proof fn law_cleanup_passes_over_forgotten_branches_only(v: CleanupView, reply: CleanupReply)
    requires
        v.wf(),
        v.step(reply).at > v.at,
    ensures
        forall|j: int|
            v.at < j < v.step(reply).at ==> !v.step(reply).state.branches.contains_key(
                #[trigger] v.candidates[j],
            ),
        v.step(reply).at < v.candidates.len() ==> v.step(reply).phase is Observe,
        v.step(reply).candidates == v.candidates,
{
    assert forall|u: CleanupView|
        u.candidates == v.candidates implies forall|j: int|
        v.at < j < (#[trigger] u.on(v.at + 1)).at ==> !u.state.branches.contains_key(
            #[trigger] v.candidates[j],
        ) by {
        if v.at + 1 <= v.candidates.len() {
            lemma_on_skips(u, v.at + 1);
        }
    }
    lemma_on_always();
}

proof fn lemma_on_skips(v: CleanupView, i: int)
    requires
        0 <= i <= v.candidates.len(),
    ensures
        forall|j: int|
            i <= j < v.on(i).at ==> !v.state.branches.contains_key(#[trigger] v.candidates[j]),
    decreases v.candidates.len() - i,
{
    if i < v.candidates.len() && !v.state.managed(v.candidates[i]) {
        lemma_on_skips(v, i + 1);
    }
}

/// A receipt of a branch that was cleaned up names it and the reason, and the parent its children
/// went to where there is one.
pub proof fn law_cleanup_receipt_tells_the_reason(
    branch: Seq<char>,
    reason: Seq<char>,
    parent: Option<Seq<char>>,
)
    ensures
        cleaned_receipt(branch, reason, parent) matches JsonView::Object(m) && {
            &&& m["branch"@] == JsonView::Text(branch)
            &&& m["action"@] == JsonView::Text("cleaned"@)
            &&& m["reason"@] == JsonView::Text(reason)
            &&& parent matches Some(p) ==> m["parent"@] == JsonView::Text(p)
        },
{
    reveal_strlit("cmd");
    reveal_strlit("branch");
    reveal_strlit("action");
    reveal_strlit("reason");
    reveal_strlit("parent");
    assert("cmd"@.len() == 3);
    assert("branch"@.len() == 6);
    assert("action"@.len() == 6);
    assert("reason"@.len() == 6);
    assert("parent"@.len() == 6);
    assert("branch"@[0] == 'b');
    assert("action"@[0] == 'a');
    assert("reason"@[0] == 'r');
    assert("parent"@[0] == 'p');
}

/// A receipt of a branch that was kept names it, its parent and the reason.
pub proof fn law_kept_receipt_tells_the_reason(
    branch: Seq<char>,
    reason: Seq<char>,
    parent: Seq<char>,
    worktree: Option<Seq<char>>,
)
    ensures
        kept_receipt(branch, reason, parent, worktree) matches JsonView::Object(m) && {
            &&& m["branch"@] == JsonView::Text(branch)
            &&& m["action"@] == JsonView::Text("cleanup_skipped"@)
            &&& m["reason"@] == JsonView::Text(reason)
            &&& m["parent"@] == JsonView::Text(parent)
        },
{
    reveal_strlit("cmd");
    reveal_strlit("branch");
    reveal_strlit("action");
    reveal_strlit("reason");
    reveal_strlit("parent");
    reveal_strlit("worktree");
    assert("cmd"@.len() == 3);
    assert("branch"@.len() == 6);
    assert("action"@.len() == 6);
    assert("reason"@.len() == 6);
    assert("parent"@.len() == 6);
    assert("worktree"@.len() == 8);
    assert("branch"@[0] == 'b');
    assert("action"@[0] == 'a');
    assert("reason"@[0] == 'r');
    assert("parent"@[0] == 'p');
}

/// A merged branch without a pull request is cleaned up with its worktree, after it is left where
/// the sync began inside it; a worktree that must be left alone keeps it, and that is told.
pub proof fn law_merged_branch_goes_with_its_worktree(v: CleanupView, f: CleanupFacts)
    requires
        v.wf(),
        v.phase is Observe,
        f.branch_exists,
        !v.prs.contains_key(v.candidates[v.at]),
        v.worktrees.contains_key(v.candidates[v.at]),
    ensures
        ({
            let b = v.candidates[v.at];
            let w = v.step(CleanupReply::Observed(f));
            let done = f.tip_in_trunk || (v.state.branches[b].pr_number is None
                && f.diff_is_empty);
            &&& w.state == v.state
            &&& w.cleaned == v.cleaned
            &&& done && f.guard is None && f.inside ==> w.phase is MoveOut && w.at == v.at
            &&& done && f.guard is None && !f.inside ==> w.phase is Remove && w.at == v.at
            &&& done && f.guard is Some ==> w.at > v.at && w.receipts == v.receipts.push(
                kept_receipt(
                    b,
                    "worktree_locked"@,
                    v.state.branches[b].parent,
                    Some(v.worktrees[b]),
                ),
            )
            &&& !done ==> w.at > v.at && w.receipts == v.receipts
        }),
{
    lemma_on_always();
}

/// What is asked for is of the branch in work: its recorded parent, its worktree, its deletion; and
/// the trunk is what is checked out in its place.
pub proof fn law_cleanup_asks_for_its_branch(v: CleanupView)
    requires
        v.wf(),
    ensures
        ({
            let b = v.candidates[v.at];
            &&& v.phase is Observe ==> (v.action() matches CleanupActionView::Observe {
                branch,
                parent,
                worktree,
            } && branch == b && parent == v.state.branches[b].parent && (worktree is Some
                <==> v.worktrees.contains_key(b)) && (worktree is Some ==> worktree
                == Some(v.worktrees[b])))
            &&& v.phase is MoveOut ==> v.action() == CleanupActionView::MoveOut(v.worktrees[b])
            &&& v.phase is Remove ==> v.action() == CleanupActionView::Remove(v.worktrees[b])
            &&& v.phase is Checkout ==> v.action() == CleanupActionView::Checkout(v.state.trunk)
            &&& v.phase is Delete ==> v.action() == CleanupActionView::Delete(b)
            &&& v.phase is Finished ==> v.action() is Finished
        }),
{
}

/// A branch that could not be cleaned up is told with what failed.
pub proof fn law_failed_step_is_told(v: CleanupView, text: String)
    requires
        v.wf(),
    ensures
        ({
            let b = v.candidates[v.at];
            let p = v.state.branches[b].parent;
            let w = v.step(CleanupReply::Failed(text));
            &&& v.phase is MoveOut ==> w.receipts == v.receipts.push(
                kept_receipt(b, "cwd_move_failed"@, p, Some(v.worktrees[b])),
            )
            &&& v.phase is Remove ==> w.receipts == v.receipts.push(
                kept_receipt(b, "worktree_remove_failed"@, p, Some(v.worktrees[b])),
            )
            &&& v.phase is Checkout ==> w.receipts == v.receipts.push(
                kept_receipt(b, "checkout_failed"@, p, None),
            )
            &&& v.phase is Delete ==> w.receipts == v.receipts.push(
                kept_receipt(b, "branch_delete_failed"@, p, None),
            )
            &&& v.phase is Delete ==> v.step(CleanupReply::Done).receipts == v.receipts.push(
                cleaned_receipt(b, v.reason, None),
            )
        }),
{
    lemma_on_always();
}

/// A cleanup begins with the record as it is, at the first recorded candidate, with nothing done.
pub proof fn law_cleanup_begins_with_its_candidates(
    state: StackView,
    candidates: Seq<Seq<char>>,
    prs: Map<Seq<char>, PrInfo>,
    worktrees: Map<Seq<char>, Seq<char>>,
    original_branch: Seq<char>,
)
    ensures
        ({
            let v = fresh_cleanup(state, candidates, prs, worktrees, original_branch);
            &&& v.state == state
            &&& v.candidates == candidates
            &&& v.prs == prs
            &&& v.worktrees == worktrees
            &&& v.original_branch == original_branch
            &&& v.cleaned.len() == 0
            &&& v.receipts.len() == 0
            &&& !v.left_worktree
            &&& forall|b: Seq<char>| !#[trigger] v.moved.contains(b)
            &&& forall|j: int|
                0 <= j < v.at ==> !state.branches.contains_key(#[trigger] candidates[j])
            &&& v.at < candidates.len() ==> v.phase is Observe
        }),
{
    lemma_on_always();
    let u = CleanupView {
        state,
        candidates,
        prs,
        worktrees,
        original_branch,
        phase: CleanupPhase::Finished,
        at: 0,
        inside: false,
        reason: Seq::empty(),
        cleaned: Seq::empty(),
        moved: Set::empty(),
        left_worktree: false,
        receipts: Seq::empty(),
    };
    lemma_on_skips(u, 0);
}

} // verus!
