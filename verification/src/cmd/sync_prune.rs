//! Removing worktrees that no record points at, once git agrees that their work has landed.

use crate::cmd::restack::receipt_views;
use crate::git::pair_views;
use crate::github::PrInfo;
use crate::json::{no_fields, Json, JsonObject, JsonView};
use crate::name_map::NameMap;
use crate::text::{holds, views};
use vstd::prelude::*;
use vstd::string::*;

verus! {

/// What the pruning is waiting for.
#[derive(Clone, Copy, Debug, PartialEq, Eq, Structural)]
pub enum PrunePhase {
    /// What git says of the branch.
    Observe,
    /// The process leaving the worktree that is to be removed.
    MoveOut,
    /// The removal of the worktree.
    Remove,
    /// The deletion of the branch.
    Delete,
    /// Nothing.
    Finished,
}

/// What git says of a branch without a record.
#[derive(Clone, Copy, Debug, PartialEq, Eq, Structural)]
pub struct PruneFacts {
    /// Whether the trunk holds the branch's tip.
    pub tip_in_trunk: bool,
    /// Whether the branch differs in nothing from the trunk.
    pub content_in_trunk: bool,
    /// Whether the process works inside the worktree.
    pub inside: bool,
}

/// The answer to what the pruning asked for.
#[derive(Debug)]
pub enum PruneReply {
    Observed(PruneFacts),
    Done,
    Failed(String),
}

/// The contents of a `Prune`.
#[verifier::ext_equal]
pub struct PruneView {
    /// The branches without a record, each with its worktree.
    pub orphans: Seq<(Seq<char>, Seq<char>)>,
    pub prs: Map<Seq<char>, PrInfo>,
    pub phase: PrunePhase,
    pub at: int,
    pub inside: bool,
    pub cleaned: Seq<Seq<char>>,
    /// Whether the worktree of the process was removed.
    pub left_worktree: bool,
    pub receipts: Seq<JsonView>,
}

/// The receipt for a worktree that was kept or removed.
pub open spec fn prune_receipt(
    branch: Seq<char>,
    action: Seq<char>,
    reason: Seq<char>,
    worktree: Seq<char>,
) -> JsonView {
    JsonView::Object(
        no_fields().insert("cmd"@, JsonView::Text("sync"@)).insert(
            "branch"@,
            JsonView::Text(branch),
        ).insert("action"@, JsonView::Text(action)).insert("reason"@, JsonView::Text(reason)).insert(
            "worktree"@,
            JsonView::Text(worktree),
        ),
    )
}

fn prune_entry(branch: &str, action: &str, reason: &str, worktree: &str) -> (r: Json)
    ensures
        r@ == prune_receipt(branch@, action@, reason@, worktree@),
{
    JsonObject::new().field("cmd", Json::text("sync")).field("branch", Json::text(branch)).field(
        "action",
        Json::text(action),
    ).field("reason", Json::text(reason)).field("worktree", Json::text(worktree)).done()
}

impl PruneView {
    pub open spec fn branch(self) -> Seq<char> {
        self.orphans[self.at].0
    }

    pub open spec fn path(self) -> Seq<char> {
        self.orphans[self.at].1
    }

    /// Goes on with entry `i`.
    pub open spec fn on(self, i: int) -> PruneView {
        PruneView {
            phase: if i < self.orphans.len() {
                PrunePhase::Observe
            } else {
                PrunePhase::Finished
            },
            at: i,
            ..self
        }
    }

    /// Keeps the worktree in work.
    pub open spec fn keep(self, reason: Seq<char>) -> PruneView {
        PruneView {
            receipts: self.receipts.push(
                prune_receipt(self.branch(), "cleanup_skipped"@, reason, self.path()),
            ),
            ..self
        }.on(self.at + 1)
    }

    /// Whether the work of the branch has landed: the trunk holds its tip, or its pull request
    /// is merged and it differs in nothing from the trunk. A pull request alone does not count,
    /// since it may belong to an earlier branch of the same name.
    pub open spec fn landed(self, f: PruneFacts) -> bool {
        f.tip_in_trunk || (self.prs.contains_key(self.branch()) && self.prs[self.branch()].merged
            && f.content_in_trunk)
    }

    /// The pruning after a reply. A reply that it does not wait for changes nothing.
    pub open spec fn step(self, reply: PruneReply) -> PruneView {
        match (self.phase, reply) {
            (PrunePhase::Observe, PruneReply::Observed(f)) => if self.landed(f) {
                PruneView {
                    inside: f.inside,
                    phase: if f.inside {
                        PrunePhase::MoveOut
                    } else {
                        PrunePhase::Remove
                    },
                    ..self
                }
            } else {
                self.keep("orphaned_worktree_unmerged"@)
            },
            (PrunePhase::MoveOut, PruneReply::Done) => PruneView {
                phase: PrunePhase::Remove,
                ..self
            },
            (PrunePhase::MoveOut, PruneReply::Failed(_)) => self.keep(
                "orphaned_worktree_cwd_move_failed"@,
            ),
            (PrunePhase::Remove, PruneReply::Done) => PruneView {
                left_worktree: self.left_worktree || self.inside,
                phase: PrunePhase::Delete,
                ..self
            },
            (PrunePhase::Remove, PruneReply::Failed(_)) => self.keep(
                "orphaned_worktree_remove_failed"@,
            ),
            (PrunePhase::Delete, PruneReply::Done) => self.gone(),
            (PrunePhase::Delete, PruneReply::Failed(_)) => self.gone(),
            _ => self,
        }
    }

    /// Counts the branch in work as cleaned up.
    pub open spec fn gone(self) -> PruneView {
        PruneView {
            receipts: self.receipts.push(
                prune_receipt(
                    self.branch(),
                    "cleaned"@,
                    "orphaned_merged_worktree"@,
                    self.path(),
                ),
            ),
            cleaned: self.cleaned.push(self.branch()),
            ..self
        }.on(self.at + 1)
    }

    /// What holds throughout the pruning.
    pub open spec fn wf(self) -> bool {
        &&& 0 <= self.at <= self.orphans.len()
        &&& self.phase is Finished || self.at < self.orphans.len()
    }
}

/// A worktree whose work has not landed is passed over: nothing is asked for but the next one.
pub proof fn law_unmerged_worktree_is_kept(v: PruneView, f: PruneFacts)
    requires
        v.wf(),
        v.phase is Observe,
        !f.tip_in_trunk,
        !f.content_in_trunk || !(v.prs.contains_key(v.branch()) && v.prs[v.branch()].merged),
    ensures
        ({
            let w = v.step(PruneReply::Observed(f));
            &&& w.at == v.at + 1
            &&& w.phase is Observe || w.phase is Finished
            &&& w.cleaned == v.cleaned
        }),
{
}

#[derive(Debug)]
struct PruneData {
    orphans: Vec<(String, String)>,
    prs: NameMap<PrInfo>,
    phase: PrunePhase,
    at: usize,
    inside: bool,
    cleaned: Vec<String>,
    left_worktree: bool,
    receipts: Vec<Json>,
}

impl View for PruneData {
    type V = PruneView;

    closed spec fn view(&self) -> PruneView {
        PruneView {
            orphans: pair_views(self.orphans@),
            prs: self.prs@,
            phase: self.phase,
            at: self.at as int,
            inside: self.inside,
            cleaned: views(self.cleaned@),
            left_worktree: self.left_worktree,
            receipts: receipt_views(self.receipts@),
        }
    }
}

impl PruneData {
    fn on(&mut self, i: usize)
        ensures
            final(self)@ == old(self)@.on(i as int),
    {
        self.phase = if i < self.orphans.len() {
            PrunePhase::Observe
        } else {
            PrunePhase::Finished
        };
        self.at = i;
    }

    fn note(&mut self, action: &str, reason: &str)
        requires
            old(self).at < old(self).orphans.len(),
        ensures
            final(self)@ == (PruneView {
                receipts: old(self)@.receipts.push(
                    prune_receipt(old(self)@.branch(), action@, reason@, old(self)@.path()),
                ),
                ..old(self)@
            }),
            final(self).at == old(self).at,
            final(self).orphans == old(self).orphans,
    {
        let ghost held = receipt_views(self.receipts@);
        let entry: Json = prune_entry(
            &self.orphans[self.at].0,
            action,
            reason,
            &self.orphans[self.at].1,
        );
        let ghost j = entry@;
        self.receipts.push(entry);
        assert(receipt_views(self.receipts@) =~= held.push(j));
    }

    fn keep(&mut self, reason: &str)
        requires
            old(self).at < old(self).orphans.len(),
        ensures
            final(self)@ == old(self)@.keep(reason@),
    {
        self.note("cleanup_skipped", reason);
        self.on(self.at + 1);
    }

    fn gone(&mut self)
        requires
            old(self).at < old(self).orphans.len(),
        ensures
            final(self)@ == old(self)@.gone(),
    {
        let ghost start = self@;
        self.note("cleaned", "orphaned_merged_worktree");
        let ghost held = views(self.cleaned@);
        let next: usize = self.at + 1;
        self.cleaned.push(self.orphans[self.at].0.clone());
        assert(views(self.cleaned@) =~= held.push(start.branch()));
        self.on(next);
    }

    fn step(&mut self, reply: PruneReply)
        requires
            old(self)@.wf(),
        ensures
            final(self)@ == old(self)@.step(reply),
    {
        match (self.phase, reply) {
            (PrunePhase::Observe, PruneReply::Observed(f)) => {
                assert(self@.branch() == self.orphans@[self.at as int].0@);
                let pr_merged: bool = match self.prs.get(&self.orphans[self.at].0) {
                    Some(pr) => pr.merged,
                    None => false,
                };
                if f.tip_in_trunk || (pr_merged && f.content_in_trunk) {
                    self.inside = f.inside;
                    self.phase = if f.inside {
                        PrunePhase::MoveOut
                    } else {
                        PrunePhase::Remove
                    };
                } else {
                    self.keep("orphaned_worktree_unmerged");
                }
            },
            (PrunePhase::MoveOut, PruneReply::Done) => {
                self.phase = PrunePhase::Remove;
            },
            (PrunePhase::MoveOut, PruneReply::Failed(_)) => self.keep(
                "orphaned_worktree_cwd_move_failed",
            ),
            (PrunePhase::Remove, PruneReply::Done) => {
                self.left_worktree = self.left_worktree || self.inside;
                self.phase = PrunePhase::Delete;
            },
            (PrunePhase::Remove, PruneReply::Failed(_)) => self.keep(
                "orphaned_worktree_remove_failed",
            ),
            (PrunePhase::Delete, PruneReply::Done) => self.gone(),
            (PrunePhase::Delete, PruneReply::Failed(_)) => self.gone(),
            _ => {},
        }
    }
}

/// What the pruning asks for next, each with the branch and its worktree.
#[derive(Debug)]
pub enum PruneAction {
    Observe { branch: String, path: String },
    MoveOut { branch: String, path: String },
    Remove { branch: String, path: String },
    Delete { branch: String, path: String },
    Finished,
}

/// A pruning in progress.
#[derive(Debug)]
pub struct Prune {
    data: PruneData,
}

impl View for Prune {
    type V = PruneView;

    closed spec fn view(&self) -> PruneView {
        self.data@
    }
}

/// The entries whose branch exists locally.
pub open spec fn existing(s: Seq<(String, String)>, local: Seq<Seq<char>>) -> Seq<(String, String)>
    decreases s.len(),
{
    if s.len() == 0 {
        Seq::empty()
    } else if local.contains(s.last().0@) {
        existing(s.drop_last(), local).push(s.last())
    } else {
        existing(s.drop_last(), local)
    }
}

/// The entries whose branch exists locally.
pub fn existing_orphans(orphans: &Vec<(String, String)>, local: &Vec<String>) -> (r: Vec<
    (String, String),
>)
    ensures
        r@ == existing(orphans@, views(local@)),
{
    let mut out: Vec<(String, String)> = Vec::new();
    let mut i: usize = 0;
    assert(orphans@.take(0) =~= Seq::<(String, String)>::empty());
    while i < orphans.len()
        invariant
            i <= orphans.len(),
            out@ == existing(orphans@.take(i as int), views(local@)),
        decreases orphans.len() - i,
    {
        assert(orphans@.take(i + 1).drop_last() =~= orphans@.take(i as int));
        if holds(local, &orphans[i].0) {
            out.push((orphans[i].0.clone(), orphans[i].1.clone()));
        }
        i += 1;
    }
    assert(orphans@.take(orphans.len() as int) =~= orphans@);
    out
}

/// A pruning at its start.
pub open spec fn fresh_prune(
    orphans: Seq<(Seq<char>, Seq<char>)>,
    prs: Map<Seq<char>, PrInfo>,
) -> PruneView {
    PruneView {
        orphans,
        prs,
        phase: PrunePhase::Finished,
        at: 0,
        inside: false,
        cleaned: Seq::empty(),
        left_worktree: false,
        receipts: Seq::empty(),
    }.on(0)
}

/// What a pruning leaves behind.
#[derive(Debug)]
pub struct PruneResult {
    pub cleaned: Vec<String>,
    pub left_worktree: bool,
    pub receipts: Vec<Json>,
}

impl Prune {
    #[verifier::type_invariant]
    spec fn in_order(self) -> bool {
        self.data@.wf()
    }

    /// Starts to prune the worktrees, given the pull requests of their branches.
    pub fn begin(orphans: Vec<(String, String)>, prs: NameMap<PrInfo>) -> (r: Prune)
        ensures
            r@ == fresh_prune(pair_views(orphans@), prs@),
    {
        let mut data = PruneData {
            orphans,
            prs,
            phase: PrunePhase::Finished,
            at: 0,
            inside: false,
            cleaned: Vec::new(),
            left_worktree: false,
            receipts: Vec::new(),
        };
        proof {
            assert(views(data.cleaned@) =~= Seq::<Seq<char>>::empty());
            assert(receipt_views(data.receipts@) =~= Seq::<JsonView>::empty());
        }
        data.on(0);
        Prune { data }
    }

    /// The pruning after a reply to what it asked for.
    pub fn step(self, reply: PruneReply) -> (r: Prune)
        ensures
            r@ == self@.step(reply),
    {
        proof {
            use_type_invariant(&self);
        }
        let mut data = self.data;
        data.step(reply);
        Prune { data }
    }

    /// What the pruning asks for next.
    pub fn action(&self) -> (r: PruneAction)
        ensures
            match self@.phase {
                PrunePhase::Observe => r matches PruneAction::Observe { branch, path } && branch@
                    == self@.branch() && path@ == self@.path(),
                PrunePhase::MoveOut => r matches PruneAction::MoveOut { branch, path } && branch@
                    == self@.branch() && path@ == self@.path(),
                PrunePhase::Remove => r matches PruneAction::Remove { branch, path } && branch@
                    == self@.branch() && path@ == self@.path(),
                PrunePhase::Delete => r matches PruneAction::Delete { branch, path } && branch@
                    == self@.branch() && path@ == self@.path(),
                PrunePhase::Finished => r is Finished,
            },
    {
        proof {
            use_type_invariant(self);
        }
        let d: &PruneData = &self.data;
        if let PrunePhase::Finished = d.phase {
            return PruneAction::Finished;
        }
        let branch: String = d.orphans[d.at].0.clone();
        let path: String = d.orphans[d.at].1.clone();
        match d.phase {
            PrunePhase::Observe => PruneAction::Observe { branch, path },
            PrunePhase::MoveOut => PruneAction::MoveOut { branch, path },
            PrunePhase::Remove => PruneAction::Remove { branch, path },
            PrunePhase::Delete => PruneAction::Delete { branch, path },
            PrunePhase::Finished => PruneAction::Finished,
        }
    }

    /// What the pruning leaves behind.
    pub fn finish(self) -> (r: PruneResult)
        ensures
            views(r.cleaned@) == self@.cleaned,
            r.left_worktree == self@.left_worktree,
            receipt_views(r.receipts@) == self@.receipts,
    {
        PruneResult {
            cleaned: self.data.cleaned,
            left_worktree: self.data.left_worktree,
            receipts: self.data.receipts,
        }
    }
}

/// The worktree of a branch that no one records goes exactly where the trunk holds the branch's
/// tip, or its pull request is merged and the trunk holds what it changed; the process leaves it
/// first.
pub proof fn law_landed_worktree_goes(v: PruneView, f: PruneFacts)
    requires
        v.wf(),
        v.phase is Observe,
    ensures
        ({
            let b = v.orphans[v.at].0;
            let w = v.step(PruneReply::Observed(f));
            let landed = f.tip_in_trunk || (v.prs.contains_key(b) && v.prs[b].merged
                && f.content_in_trunk);
            &&& w.cleaned == v.cleaned
            &&& landed && f.inside ==> w.phase is MoveOut && w.at == v.at
            &&& landed && !f.inside ==> w.phase is Remove && w.at == v.at
            &&& !landed ==> w.at == v.at + 1 && w.receipts.len() == v.receipts.len() + 1
        }),
{
}

/// A worktree is removed before its branch is deleted; then the branch counts as cleaned, and the
/// next one is looked at. What cannot be removed is kept, and the next one is looked at too.
pub proof fn law_prune_goes_step_by_step(v: PruneView, text: String)
    requires
        v.wf(),
    ensures
        v.phase is MoveOut ==> v.step(PruneReply::Done).phase is Remove && v.step(
            PruneReply::Done,
        ).at == v.at,
        v.phase is Remove ==> v.step(PruneReply::Done).phase is Delete && v.step(
            PruneReply::Done,
        ).at == v.at && v.step(PruneReply::Done).left_worktree == (v.left_worktree || v.inside),
        v.phase is Delete ==> v.step(PruneReply::Done).cleaned == v.cleaned.push(
            v.orphans[v.at].0,
        ) && v.step(PruneReply::Done).at == v.at + 1,
        v.phase is MoveOut || v.phase is Remove ==> v.step(PruneReply::Failed(text)).cleaned
            == v.cleaned && v.step(PruneReply::Failed(text)).at == v.at + 1,
        v.step(PruneReply::Done).at < v.orphans.len() && v.step(PruneReply::Done).at > v.at
            ==> v.step(PruneReply::Done).phase is Observe,
        v.step(PruneReply::Done).at >= v.orphans.len() && v.step(PruneReply::Done).at > v.at
            ==> v.step(PruneReply::Done).phase is Finished,
{
}

/// The orphans looked at are those whose branch is still there, in their order.
pub proof fn law_existing_orphans_are_looked_at(
    s: Seq<(String, String)>,
    local: Seq<Seq<char>>,
    e: (String, String),
)
    ensures
        existing(s, local).contains(e) <==> s.contains(e) && local.contains(e.0@),
    decreases s.len(),
{
    if s.len() > 0 {
        let low = s.drop_last();
        law_existing_orphans_are_looked_at(low, local, e);
        assert(s =~= low.push(s.last()));
        vstd::seq_lib::lemma_seq_contains_after_push(low, s.last(), e);
        vstd::seq_lib::lemma_seq_contains_after_push(existing(low, local), s.last(), e);
    }
}

/// Each worktree looked at is told with what became of it.
pub proof fn law_each_orphan_is_told(v: PruneView, f: PruneFacts, text: String)
    requires
        v.wf(),
        v.at < v.orphans.len(),
    ensures
        ({
            let b = v.orphans[v.at].0;
            let path = v.orphans[v.at].1;
            let landed = f.tip_in_trunk || (v.prs.contains_key(b) && v.prs[b].merged
                && f.content_in_trunk);
            &&& v.phase is Observe && !landed ==> v.step(PruneReply::Observed(f)).receipts
                == v.receipts.push(
                prune_receipt(b, "cleanup_skipped"@, "orphaned_worktree_unmerged"@, path),
            )
            &&& v.phase is MoveOut ==> v.step(PruneReply::Failed(text)).receipts == v.receipts.push(
                prune_receipt(b, "cleanup_skipped"@, "orphaned_worktree_cwd_move_failed"@, path),
            )
            &&& v.phase is Remove ==> v.step(PruneReply::Failed(text)).receipts == v.receipts.push(
                prune_receipt(b, "cleanup_skipped"@, "orphaned_worktree_remove_failed"@, path),
            )
            &&& v.phase is Delete ==> v.step(PruneReply::Done).receipts == v.receipts.push(
                prune_receipt(b, "cleaned"@, "orphaned_merged_worktree"@, path),
            )
            &&& v.branch() == b
            &&& v.path() == path
        }),
{
}

/// A prune begins with the first of its worktrees, with nothing done.
pub proof fn law_prune_begins_with_the_first(
    orphans: Seq<(Seq<char>, Seq<char>)>,
    prs: Map<Seq<char>, PrInfo>,
)
    ensures
        ({
            let v = fresh_prune(orphans, prs);
            &&& v.orphans == orphans
            &&& v.prs == prs
            &&& v.at == 0
            &&& v.cleaned.len() == 0
            &&& v.receipts.len() == 0
            &&& !v.left_worktree
            &&& orphans.len() > 0 ==> v.phase is Observe
            &&& orphans.len() == 0 ==> v.phase is Finished
        }),
{
}

} // verus!
