//! Carrying out a fold: the parent is advanced to the folded tip, the folded worktree and branch
//! are removed and the record is saved, or all of it is taken back.

use crate::branch_map::is_child;
use crate::cmd::fold::{moved_text, parent_moved};
use crate::error::{ErrorView, EzError};
use crate::git::{Reply, ReplyView};
use crate::json::{no_fields, text_list, text_or_null, Json, JsonObject, JsonView};
use crate::names::{lemma_ranked, ranked};
use crate::stack::{children, forgotten, StackState, StackView};
use crate::text::{join, joined, opt_view, views};
use vstd::prelude::*;
use vstd::string::*;

verus! {

/// What a fold is waiting for.
#[derive(Clone, Copy, Debug, PartialEq, Eq, Structural)]
pub enum FoldPhase {
    /// The process leaving the folded worktree.
    MoveOut,
    /// The parent being advanced to the folded tip.
    Advance,
    /// The removal of the folded worktree.
    RemoveWorktree,
    /// The deletion of the folded branch.
    DeleteBranch,
    /// The saving of the stack.
    Save,
    /// After a failure, whether the folded branch is still there.
    LookBranch,
    /// The folded branch being made again.
    CreateBranch,
    /// Whether the folded branch is there without its worktree.
    LookWorktree,
    /// The folded worktree being made again.
    AddWorktree,
    /// Where the parent's worktree stands by now.
    LookParent,
    /// The parent being set back.
    RestoreParent,
    /// The saved stack being put back.
    RestoreState,
    /// Nothing: the branch is folded.
    Finished,
    /// Nothing: the branch is not folded.
    Failed,
}

/// The commits and worktrees as they were before the fold.
#[derive(Debug)]
pub struct FoldSnapshot {
    pub target: String,
    pub target_sha: String,
    pub target_worktree: Option<String>,
    pub parent: String,
    pub parent_sha: String,
    pub parent_worktree: Option<String>,
}

/// The contents of a `Folding`.
#[verifier::ext_equal]
pub struct FoldView {
    pub state: StackView,
    pub original: StackView,
    pub target: Seq<char>,
    pub target_sha: Seq<char>,
    pub target_worktree: Option<Seq<char>>,
    pub parent: Seq<char>,
    pub parent_sha: Seq<char>,
    pub parent_worktree: Option<Seq<char>>,
    /// The main worktree.
    pub main_root: Seq<char>,
    /// Whether the process worked inside the folded worktree at first.
    pub inside: bool,
    /// Where the process went from there.
    pub entered: Option<Seq<char>>,
    pub phase: FoldPhase,
    /// What went wrong, while it is being taken back.
    pub cause: Seq<char>,
    /// What could not be taken back.
    pub lost: Seq<Seq<char>>,
    /// The children that got another parent, by name.
    pub kids: Seq<Seq<char>>,
    pub error: Option<ErrorView>,
}

impl FoldView {
    pub open spec fn to(self, phase: FoldPhase) -> FoldView {
        FoldView { phase: phase, ..self }
    }

    /// Ends before anything was changed.
    pub open spec fn end(self, text: Seq<char>) -> FoldView {
        FoldView { phase: FoldPhase::Failed, error: Some(ErrorView::Other(text)), ..self }
    }

    /// Begins to take everything back.
    pub open spec fn undo(self, cause: Seq<char>) -> FoldView {
        FoldView {
            phase: FoldPhase::LookBranch,
            state: self.original,
            cause: cause,
            ..self
        }
    }

    /// Goes on after the parent was advanced.
    pub open spec fn advanced(self) -> FoldView {
        self.to(
            if self.target_worktree is Some {
                FoldPhase::RemoveWorktree
            } else {
                FoldPhase::DeleteBranch
            },
        )
    }

    /// Records that the branch is folded.
    pub open spec fn record(self) -> FoldView {
        let m = self.state.branches;
        FoldView {
            state: self.state.with_branches(forgotten(m, self.target, self.parent)),
            kids: ranked(children(m, self.target)),
            phase: FoldPhase::Save,
            ..self
        }
    }

    /// Goes on once the branch is back, or could not be brought back.
    pub open spec fn branch_back(self) -> FoldView {
        if self.target_worktree is Some {
            self.to(FoldPhase::LookWorktree)
        } else {
            self.worktree_back()
        }
    }

    /// Goes on once the worktree is back, or could not be brought back.
    pub open spec fn worktree_back(self) -> FoldView {
        self.to(
            if self.parent_worktree is Some {
                FoldPhase::LookParent
            } else {
                FoldPhase::RestoreParent
            },
        )
    }

    /// Where a process that leaves the folded worktree goes: to the parent's worktree, or else to
    /// the main one.
    pub open spec fn destination(self) -> Seq<char> {
        match self.parent_worktree {
            Some(w) => w,
            None => self.main_root,
        }
    }

    /// Leaves the parent where it is.
    pub open spec fn keep_parent(self, text: Seq<char>) -> FoldView {
        self.lose(
            "restore parent `"@ + self.parent + "` at "@ + self.parent_sha + ": "@ + text,
        ).to(FoldPhase::RestoreState)
    }

    /// Notes what could not be taken back.
    pub open spec fn lose(self, text: Seq<char>) -> FoldView {
        FoldView { lost: self.lost.push(text), ..self }
    }

    /// Ends after everything was taken back as far as possible.
    pub open spec fn undone(self) -> FoldView {
        self.end(
            if self.lost.len() == 0 {
                "fold failed; all local changes were rolled back: "@ + self.cause
            } else {
                self.cause + "\nFold rollback was incomplete:\n  - "@ + joined(
                    self.lost,
                    "\n  - "@,
                )
                    + "\n  → Inspect `ez status --json` and `git worktree list` before retrying"@
            },
        )
    }

    /// The fold after a reply while it is going forward.
    pub open spec fn step_forward(self, reply: ReplyView) -> FoldView {
        match (self.phase, reply) {
            (FoldPhase::MoveOut, ReplyView::Done) => FoldView {
                phase: FoldPhase::Advance,
                entered: Some(self.destination()),
                ..self
            },
            (FoldPhase::MoveOut, ReplyView::Failed(t)) => self.end(
                "move out of folded worktree before removing `"@ + self.target + "`: "@ + t,
            ),
            (FoldPhase::Advance, ReplyView::Done) => self.advanced(),
            (FoldPhase::Advance, ReplyView::Failed(t)) => self.end(
                "advance `"@ + self.parent + "` to `"@ + self.target + "`: "@ + t,
            ),
            (FoldPhase::RemoveWorktree, ReplyView::Done) => self.to(FoldPhase::DeleteBranch),
            (FoldPhase::RemoveWorktree, ReplyView::Failed(t)) => self.undo(
                "remove folded worktree `"@ + self.worktree() + "`: "@ + t,
            ),
            (FoldPhase::DeleteBranch, ReplyView::Done) => self.record(),
            (FoldPhase::DeleteBranch, ReplyView::Failed(t)) => self.undo(
                "remove folded local branch `"@ + self.target + "`: "@ + t,
            ),
            (FoldPhase::Save, ReplyView::Done) => self.to(FoldPhase::Finished),
            (FoldPhase::Save, ReplyView::Failed(t)) => self.undo(
                "save folded stack state: "@ + t,
            ),
            _ => self,
        }
    }

    /// The fold after a reply while it is being taken back. Each step is tried whether the ones
    /// before it succeeded or not.
    pub open spec fn step_back(self, reply: ReplyView) -> FoldView {
        match (self.phase, reply) {
            (FoldPhase::LookBranch, ReplyView::Flag(there)) => if there {
                self.branch_back()
            } else {
                self.to(FoldPhase::CreateBranch)
            },
            (FoldPhase::CreateBranch, ReplyView::Done) => self.branch_back(),
            (FoldPhase::CreateBranch, ReplyView::Failed(t)) => self.lose(
                "restore branch `"@ + self.target + "` at "@ + self.target_sha + ": "@ + t,
            ).branch_back(),
            (FoldPhase::LookWorktree, ReplyView::Flag(missing)) => if missing {
                self.to(FoldPhase::AddWorktree)
            } else {
                self.worktree_back()
            },
            (FoldPhase::AddWorktree, ReplyView::Done) => self.worktree_back(),
            (FoldPhase::AddWorktree, ReplyView::Failed(t)) => self.lose(
                "restore worktree `"@ + self.worktree() + "`: "@ + t,
            ).worktree_back(),
            (FoldPhase::LookParent, ReplyView::Text(now)) => if now != self.target_sha {
                self.keep_parent(moved_text(self.destination(), now, self.target_sha))
            } else {
                self.to(FoldPhase::RestoreParent)
            },
            (FoldPhase::LookParent, ReplyView::Failed(t)) => self.keep_parent(t),
            (FoldPhase::RestoreParent, ReplyView::Done) => self.to(FoldPhase::RestoreState),
            (FoldPhase::RestoreParent, ReplyView::Failed(t)) => self.keep_parent(t),
            (FoldPhase::RestoreState, ReplyView::Done) => self.undone(),
            (FoldPhase::RestoreState, ReplyView::Failed(t)) => self.lose(
                "restore stack metadata: "@ + t,
            ).undone(),
            _ => self,
        }
    }

    /// The path of the folded worktree.
    pub open spec fn worktree(self) -> Seq<char> {
        match self.target_worktree {
            Some(w) => w,
            None => Seq::empty(),
        }
    }

    /// Whether the fold is going forward.
    pub open spec fn forward(self) -> bool {
        self.phase is MoveOut || self.phase is Advance || self.phase is RemoveWorktree
            || self.phase is DeleteBranch || self.phase is Save
    }

    /// The fold after a reply. A reply that it does not wait for changes nothing.
    pub open spec fn step(self, reply: ReplyView) -> FoldView {
        if self.forward() {
            self.step_forward(reply)
        } else {
            self.step_back(reply)
        }
    }

    /// What holds throughout a fold: the record is the original one, except when the branch is
    /// gone and the record is being saved or has been saved.
    pub open spec fn wf(self) -> bool {
        &&& !(self.phase is Save || self.phase is Finished) ==> self.state == self.original
        &&& (self.phase is Save || self.phase is Finished) ==> self.state
            == self.original.with_branches(
            forgotten(self.original.branches, self.target, self.parent),
        )
        &&& self.phase is Failed ==> self.error is Some
        &&& self.phase is MoveOut ==> self.inside && self.entered is None
        &&& !(self.phase is MoveOut || self.phase is Failed) ==> self.entered == (if self.inside {
            Some(self.destination())
        } else {
            None
        })
        &&& self.phase is LookParent ==> self.parent_worktree is Some
    }
}

/// Every reply keeps what holds throughout a fold: in particular a fold that fails leaves the
/// record as it was, and one that finishes has forgotten the folded branch and nothing else.
pub proof fn law_fold_is_all_or_nothing(v: FoldView, reply: ReplyView)
    requires
        v.wf(),
    ensures
        v.step(reply).wf(),
        v.step(reply).original == v.original,
        v.step(reply).phase is Failed ==> v.step(reply).state == v.original,
{
}

/// A fold that fails after it advanced the parent sets the parent and the saved stack back before
/// it ends.
pub proof fn law_fold_takes_back_before_it_ends(v: FoldView, reply: ReplyView)
    requires
        v.step(reply).phase is Failed,
        !(v.phase is Failed),
    ensures
        v.phase is MoveOut || v.phase is Advance || v.phase is RestoreState,
{
}

/// The parent is set back before the saved stack is put back; a parent worktree that moved on in
/// the meantime stays as it is, and that is told.
pub proof fn law_fold_sets_parent_back_first(v: FoldView, reply: ReplyView)
    requires
        v.step(reply).phase is RestoreState,
        !(v.phase is RestoreState),
    ensures
        v.phase is RestoreParent || v.phase is LookParent,
        v.phase is LookParent ==> v.step(reply).lost.len() == v.lost.len() + 1,
{
}

/// A process that worked inside the folded worktree ends a fold in the parent's worktree, or else
/// in the main one.
pub proof fn law_fold_ends_in_destination(v: FoldView)
    requires
        v.wf(),
        v.phase is Finished,
        v.inside,
    ensures
        v.entered == Some(
            match v.parent_worktree {
                Some(w) => w,
                None => v.main_root,
            },
        ),
{
}

#[derive(Debug)]
struct FoldData {
    state: StackState,
    original: StackState,
    snapshot: FoldSnapshot,
    main_root: String,
    inside: bool,
    entered: Option<String>,
    phase: FoldPhase,
    cause: String,
    lost: Vec<String>,
    kids: Vec<String>,
    error: Option<EzError>,
}

impl View for FoldData {
    type V = FoldView;

    closed spec fn view(&self) -> FoldView {
        FoldView {
            state: self.state@,
            original: self.original@,
            target: self.snapshot.target@,
            target_sha: self.snapshot.target_sha@,
            target_worktree: opt_view(self.snapshot.target_worktree),
            parent: self.snapshot.parent@,
            parent_sha: self.snapshot.parent_sha@,
            parent_worktree: opt_view(self.snapshot.parent_worktree),
            main_root: self.main_root@,
            inside: self.inside,
            entered: opt_view(self.entered),
            phase: self.phase,
            cause: self.cause@,
            lost: views(self.lost@),
            kids: views(self.kids@),
            error: match self.error {
                Some(e) => Some(e@),
                None => None,
            },
        }
    }
}

impl FoldData {
    fn worktree(&self) -> (r: String)
        ensures
            r@ == self@.worktree(),
    {
        match &self.snapshot.target_worktree {
            Some(w) => w.clone(),
            None => String::new(),
        }
    }

    fn end(&mut self, text: String)
        ensures
            final(self)@ == old(self)@.end(text@),
    {
        self.phase = FoldPhase::Failed;
        self.error = Some(EzError::Other(text));
    }

    fn undo(&mut self, cause: String)
        ensures
            final(self)@ == old(self)@.undo(cause@),
    {
        self.phase = FoldPhase::LookBranch;
        self.state = self.original.copy();
        self.cause = cause;
    }

    fn record(&mut self)
        ensures
            final(self)@ == old(self)@.record(),
    {
        let ghost m = self.state@.branches;
        let target: String = self.snapshot.target.clone();
        let parent: String = self.snapshot.parent.clone();
        let kids: Vec<String> = self.state.reparent_children_preserving_parent_head(
            &target,
            &parent,
        );
        proof {
            assert forall|k: Seq<char>| #[trigger]
                views(kids@).contains(k) <==> children(m, target@).contains(k) by {
                assert(views(kids@).contains(k) <==> is_child(m, target@, k));
            }
            lemma_ranked(views(kids@), children(m, target@));
        }
        self.state.remove_branch(&target);
        self.kids = kids;
        self.phase = FoldPhase::Save;
    }

    fn branch_back(&mut self)
        ensures
            final(self)@ == old(self)@.branch_back(),
    {
        if self.snapshot.target_worktree.is_some() {
            self.phase = FoldPhase::LookWorktree;
        } else {
            self.worktree_back();
        }
    }

    fn worktree_back(&mut self)
        ensures
            final(self)@ == old(self)@.worktree_back(),
    {
        self.phase = if self.snapshot.parent_worktree.is_some() {
            FoldPhase::LookParent
        } else {
            FoldPhase::RestoreParent
        };
    }

    fn destination(&self) -> (r: String)
        ensures
            r@ == self@.destination(),
    {
        match &self.snapshot.parent_worktree {
            Some(w) => w.clone(),
            None => self.main_root.clone(),
        }
    }

    fn keep_parent(&mut self, text: &str)
        ensures
            final(self)@ == old(self)@.keep_parent(text@),
    {
        let told: String = String::from_str("restore parent `").concat(
            &self.snapshot.parent,
        ).concat("` at ").concat(&self.snapshot.parent_sha).concat(": ").concat(text);
        self.lose(told);
        self.phase = FoldPhase::RestoreState;
    }

    fn lose(&mut self, text: String)
        ensures
            final(self)@ == old(self)@.lose(text@),
    {
        let ghost held = views(self.lost@);
        let ghost t = text@;
        self.lost.push(text);
        assert(views(self.lost@) =~= held.push(t));
    }

    fn undone(&mut self)
        ensures
            final(self)@ == old(self)@.undone(),
    {
        assert(views(self.lost@).len() == self.lost.len());
        let text: String = if self.lost.len() == 0 {
            String::from_str("fold failed; all local changes were rolled back: ").concat(
                &self.cause,
            )
        } else {
            self.cause.clone().concat("\nFold rollback was incomplete:\n  - ").concat(
                &join(&self.lost, "\n  - "),
            ).concat("\n  → Inspect `ez status --json` and `git worktree list` before retrying")
        };
        self.end(text);
    }

    fn step_forward(&mut self, reply: Reply)
        ensures
            final(self)@ == old(self)@.step_forward(reply@),
    {
        match (self.phase, reply) {
            (FoldPhase::MoveOut, Reply::Done) => {
                self.entered = Some(self.destination());
                self.phase = FoldPhase::Advance;
            },
            (FoldPhase::MoveOut, Reply::Failed(t)) => {
                let text: String = String::from_str(
                    "move out of folded worktree before removing `",
                ).concat(&self.snapshot.target).concat("`: ").concat(&t);
                self.end(text);
            },
            (FoldPhase::Advance, Reply::Done) => {
                self.phase = if self.snapshot.target_worktree.is_some() {
                    FoldPhase::RemoveWorktree
                } else {
                    FoldPhase::DeleteBranch
                };
            },
            (FoldPhase::Advance, Reply::Failed(t)) => {
                let text: String = String::from_str("advance `").concat(
                    &self.snapshot.parent,
                ).concat("` to `").concat(&self.snapshot.target).concat("`: ").concat(&t);
                self.end(text);
            },
            (FoldPhase::RemoveWorktree, Reply::Done) => {
                self.phase = FoldPhase::DeleteBranch;
            },
            (FoldPhase::RemoveWorktree, Reply::Failed(t)) => {
                let text: String = String::from_str("remove folded worktree `").concat(
                    &self.worktree(),
                ).concat("`: ").concat(&t);
                self.undo(text);
            },
            (FoldPhase::DeleteBranch, Reply::Done) => self.record(),
            (FoldPhase::DeleteBranch, Reply::Failed(t)) => {
                let text: String = String::from_str("remove folded local branch `").concat(
                    &self.snapshot.target,
                ).concat("`: ").concat(&t);
                self.undo(text);
            },
            (FoldPhase::Save, Reply::Done) => {
                self.phase = FoldPhase::Finished;
            },
            (FoldPhase::Save, Reply::Failed(t)) => {
                let text: String = String::from_str("save folded stack state: ").concat(&t);
                self.undo(text);
            },
            _ => {},
        }
    }

    fn step_back(&mut self, reply: Reply)
        ensures
            final(self)@ == old(self)@.step_back(reply@),
    {
        match (self.phase, reply) {
            (FoldPhase::LookBranch, Reply::Flag(there)) => {
                if there {
                    self.branch_back();
                } else {
                    self.phase = FoldPhase::CreateBranch;
                }
            },
            (FoldPhase::CreateBranch, Reply::Done) => self.branch_back(),
            (FoldPhase::CreateBranch, Reply::Failed(t)) => {
                let text: String = String::from_str("restore branch `").concat(
                    &self.snapshot.target,
                ).concat("` at ").concat(&self.snapshot.target_sha).concat(": ").concat(&t);
                self.lose(text);
                self.branch_back();
            },
            (FoldPhase::LookWorktree, Reply::Flag(missing)) => {
                if missing {
                    self.phase = FoldPhase::AddWorktree;
                } else {
                    self.worktree_back();
                }
            },
            (FoldPhase::AddWorktree, Reply::Done) => self.worktree_back(),
            (FoldPhase::AddWorktree, Reply::Failed(t)) => {
                let text: String = String::from_str("restore worktree `").concat(
                    &self.worktree(),
                ).concat("`: ").concat(&t);
                self.lose(text);
                self.worktree_back();
            },
            (FoldPhase::LookParent, Reply::Text(now)) => {
                let path: String = self.destination();
                match parent_moved(&path, &now, &self.snapshot.target_sha) {
                    Some(text) => self.keep_parent(&text),
                    None => {
                        self.phase = FoldPhase::RestoreParent;
                    },
                }
            },
            (FoldPhase::LookParent, Reply::Failed(t)) => self.keep_parent(&t),
            (FoldPhase::RestoreParent, Reply::Done) => {
                self.phase = FoldPhase::RestoreState;
            },
            (FoldPhase::RestoreParent, Reply::Failed(t)) => self.keep_parent(&t),
            (FoldPhase::RestoreState, Reply::Done) => self.undone(),
            (FoldPhase::RestoreState, Reply::Failed(t)) => {
                let text: String = String::from_str("restore stack metadata: ").concat(&t);
                self.lose(text);
                self.undone();
            },
            _ => {},
        }
    }
}

/// How the parent's tip is moved.
#[derive(Debug)]
pub enum ParentMove {
    /// Merge into the worktree, only by going forward.
    FastForward { worktree: String, to: String },
    /// Set the worktree back, without touching changes that are not committed.
    ResetKeep { worktree: String, to: String },
    /// Set the ref, only if it is at the expected commit.
    Swap { branch: String, to: String, expected: String },
}

/// The contents of a `ParentMove`.
#[verifier::ext_equal]
pub enum ParentMoveView {
    FastForward { worktree: Seq<char>, to: Seq<char> },
    ResetKeep { worktree: Seq<char>, to: Seq<char> },
    Swap { branch: Seq<char>, to: Seq<char>, expected: Seq<char> },
}

impl View for ParentMove {
    type V = ParentMoveView;

    open spec fn view(&self) -> ParentMoveView {
        match *self {
            ParentMove::FastForward { worktree, to } => ParentMoveView::FastForward {
                worktree: worktree@,
                to: to@,
            },
            ParentMove::ResetKeep { worktree, to } => ParentMoveView::ResetKeep {
                worktree: worktree@,
                to: to@,
            },
            ParentMove::Swap { branch, to, expected } => ParentMoveView::Swap {
                branch: branch@,
                to: to@,
                expected: expected@,
            },
        }
    }
}

impl FoldView {
    /// How the parent is moved: forward to the folded tip and back to its own, in its worktree
    /// where it has one, and else by its ref.
    pub open spec fn parent_move(self) -> Option<ParentMoveView> {
        match self.phase {
            FoldPhase::Advance => Some(
                match self.parent_worktree {
                    Some(w) => ParentMoveView::FastForward { worktree: w, to: self.target_sha },
                    None => ParentMoveView::Swap {
                        branch: self.parent,
                        to: self.target_sha,
                        expected: self.parent_sha,
                    },
                },
            ),
            FoldPhase::RestoreParent => Some(
                match self.parent_worktree {
                    Some(w) => ParentMoveView::ResetKeep { worktree: w, to: self.parent_sha },
                    None => ParentMoveView::Swap {
                        branch: self.parent,
                        to: self.parent_sha,
                        expected: self.target_sha,
                    },
                },
            ),
            _ => None,
        }
    }
}

/// A fold in progress.
#[derive(Debug)]
pub struct Folding {
    data: FoldData,
}

impl View for Folding {
    type V = FoldView;

    closed spec fn view(&self) -> FoldView {
        self.data@
    }
}

/// A fold at its start.
pub open spec fn fresh_fold(
    state: StackView,
    s: FoldSnapshot,
    main_root: Seq<char>,
    inside: bool,
) -> FoldView {
    FoldView {
        state,
        original: state,
        target: s.target@,
        target_sha: s.target_sha@,
        target_worktree: opt_view(s.target_worktree),
        parent: s.parent@,
        parent_sha: s.parent_sha@,
        parent_worktree: opt_view(s.parent_worktree),
        main_root,
        inside,
        entered: None,
        phase: if inside {
            FoldPhase::MoveOut
        } else {
            FoldPhase::Advance
        },
        cause: Seq::empty(),
        lost: Seq::empty(),
        kids: Seq::empty(),
        error: None,
    }
}

/// The receipt for a fold.
pub open spec fn fold_receipt(v: FoldView, commits: u64) -> JsonView {
    JsonView::Object(
        no_fields().insert("cmd"@, JsonView::Text("fold"@)).insert(
            "branch"@,
            JsonView::Text(v.target),
        ).insert("into"@, JsonView::Text(v.parent)).insert(
            "before_parent"@,
            JsonView::Text(v.parent_sha),
        ).insert("after_parent"@, JsonView::Text(v.target_sha)).insert(
            "folded_commits"@,
            JsonView::Number(commits),
        ).insert("mode"@, JsonView::Text("fast_forward_boundary"@)).insert(
            "removed_branch"@,
            JsonView::Bool(true),
        ).insert("removed_worktree"@, text_or_null(v.target_worktree)).insert(
            "reparented_children"@,
            text_list(v.kids),
        ).insert("remote_preserved"@, JsonView::Bool(true)),
    )
}

impl Folding {
    #[verifier::type_invariant]
    spec fn in_order(self) -> bool {
        self.data@.wf()
    }

    /// Starts a fold of the branch in the snapshot into its parent. `inside` tells whether the
    /// process works inside the folded worktree.
    pub fn begin(
        state: &StackState,
        snapshot: FoldSnapshot,
        main_root: &str,
        inside: bool,
    ) -> (r: Folding)
        ensures
            r@ == fresh_fold(state@, snapshot, main_root@, inside),
    {
        let phase: FoldPhase = if inside {
            FoldPhase::MoveOut
        } else {
            FoldPhase::Advance
        };
        let data = FoldData {
            state: state.copy(),
            original: state.copy(),
            snapshot,
            main_root: main_root.to_owned(),
            inside,
            entered: None,
            phase,
            cause: String::new(),
            lost: Vec::new(),
            kids: Vec::new(),
            error: None,
        };
        proof {
            assert(views(data.lost@) =~= Seq::<Seq<char>>::empty());
            assert(views(data.kids@) =~= Seq::<Seq<char>>::empty());
        }
        Folding { data }
    }

    /// The fold after a reply to what it waits for.
    pub fn step(self, reply: Reply) -> (r: Folding)
        ensures
            r@ == self@.step(reply@),
    {
        proof {
            use_type_invariant(&self);
            law_fold_is_all_or_nothing(self@, reply@);
        }
        let mut data = self.data;
        match data.phase {
            FoldPhase::MoveOut
            | FoldPhase::Advance
            | FoldPhase::RemoveWorktree
            | FoldPhase::DeleteBranch
            | FoldPhase::Save => data.step_forward(reply),
            _ => data.step_back(reply),
        }
        Folding { data }
    }

    /// What the fold waits for.
    pub fn phase(&self) -> (r: FoldPhase)
        ensures
            r == self@.phase,
    {
        self.data.phase
    }

    /// The commits and worktrees as they were before the fold.
    pub fn snapshot(&self) -> (r: &FoldSnapshot)
        ensures
            r.target@ == self@.target,
            r.target_sha@ == self@.target_sha,
            opt_view(r.target_worktree) == self@.target_worktree,
            r.parent@ == self@.parent,
            r.parent_sha@ == self@.parent_sha,
            opt_view(r.parent_worktree) == self@.parent_worktree,
    {
        &self.data.snapshot
    }

    /// Where a process that leaves the folded worktree goes: to the parent's worktree, or else to
    /// the main one.
    pub fn destination(&self) -> (r: String)
        ensures
            r@ == self@.destination(),
    {
        self.data.destination()
    }

    /// Where the process went from the folded worktree, if it worked inside.
    pub fn entered(&self) -> (r: Option<&String>)
        ensures
            (match r {
                Some(p) => Some(p@),
                None => None,
            }) == self@.entered,
    {
        match &self.data.entered {
            Some(p) => Some(p),
            None => None,
        }
    }

    /// How the parent is moved: in its worktree where it has one, and else by its ref. `None`
    /// where it is not to be moved now.
    pub fn parent_move(&self) -> (r: Option<ParentMove>)
        ensures
            (match r {
                Some(m) => Some(m@),
                None => None,
            }) == self@.parent_move(),
    {
        let s: &FoldSnapshot = &self.data.snapshot;
        match self.data.phase {
            FoldPhase::Advance => Some(
                match &s.parent_worktree {
                    Some(w) => ParentMove::FastForward {
                        worktree: w.clone(),
                        to: s.target_sha.clone(),
                    },
                    None => ParentMove::Swap {
                        branch: s.parent.clone(),
                        to: s.target_sha.clone(),
                        expected: s.parent_sha.clone(),
                    },
                },
            ),
            FoldPhase::RestoreParent => Some(
                match &s.parent_worktree {
                    Some(w) => ParentMove::ResetKeep {
                        worktree: w.clone(),
                        to: s.parent_sha.clone(),
                    },
                    None => ParentMove::Swap {
                        branch: s.parent.clone(),
                        to: s.parent_sha.clone(),
                        expected: s.target_sha.clone(),
                    },
                },
            ),
            _ => None,
        }
    }

    /// The stack as it is to be saved.
    pub fn state(&self) -> (r: &StackState)
        ensures
            r@ == self@.state,
    {
        &self.data.state
    }

    /// The children that got another parent, by name.
    pub fn kids(&self) -> (r: &Vec<String>)
        ensures
            views(r@) == self@.kids,
    {
        &self.data.kids
    }

    /// Why the branch is not folded.
    pub fn error(&self) -> (r: Option<&EzError>)
        ensures
            (match r {
                Some(e) => Some(e@),
                None => None,
            }) == self@.error,
    {
        match &self.data.error {
            Some(e) => Some(e),
            None => None,
        }
    }

    /// The receipt for the fold of so many commits.
    pub fn receipt(&self, commits: u64) -> (r: Json)
        ensures
            r@ == fold_receipt(self@, commits),
    {
        let s: &FoldSnapshot = &self.data.snapshot;
        JsonObject::new().field("cmd", Json::text("fold")).field(
            "branch",
            Json::text(&s.target),
        ).field("into", Json::text(&s.parent)).field(
            "before_parent",
            Json::text(&s.parent_sha),
        ).field("after_parent", Json::text(&s.target_sha)).field(
            "folded_commits",
            Json::Number(commits),
        ).field("mode", Json::text("fast_forward_boundary")).field(
            "removed_branch",
            Json::Bool(true),
        ).field("removed_worktree", Json::opt_text(&s.target_worktree)).field(
            "reparented_children",
            Json::texts(&self.data.kids),
        ).field("remote_preserved", Json::Bool(true)).done()
    }
}

/// Once the folded branch is deleted, it is forgotten, each of its children stands on its parent
/// with the parent commit that it had, and every other branch stays as it was.
pub proof fn law_fold_hands_children_to_parent(v: FoldView, k: Seq<char>)
    requires
        v.wf(),
        v.phase is DeleteBranch,
    ensures
        ({
            let m = v.state.branches;
            let w = v.step(ReplyView::Done);
            let after = w.state.branches;
            &&& w.phase is Save
            &&& w.state.trunk == v.state.trunk
            &&& after.contains_key(k) <==> m.contains_key(k) && k != v.target
            &&& after.contains_key(k) && m[k].parent == v.target ==> after[k].parent == v.parent
                && after[k].parent_head == m[k].parent_head && after[k].pr_number == m[k].pr_number
            &&& after.contains_key(k) && m[k].parent != v.target ==> after[k] == m[k]
        }),
{
    crate::stack::law_forgetting_moves_only_children(v.state.branches, v.target, v.parent, k);
}

/// A fold goes step by step: out of the worktree, the parent forward, the worktree away where
/// there is one, the branch away, the record saved.
pub proof fn law_fold_goes_step_by_step(v: FoldView)
    ensures
        v.phase is MoveOut ==> v.step(ReplyView::Done).phase is Advance,
        v.phase is Advance && v.target_worktree is Some ==> v.step(
            ReplyView::Done,
        ).phase is RemoveWorktree,
        v.phase is Advance && v.target_worktree is None ==> v.step(
            ReplyView::Done,
        ).phase is DeleteBranch,
        v.phase is RemoveWorktree ==> v.step(ReplyView::Done).phase is DeleteBranch,
        v.phase is Save ==> v.step(ReplyView::Done).phase is Finished,
        v.phase is LookBranch ==> v.step(ReplyView::Flag(false)).phase is CreateBranch,
        v.phase is LookWorktree ==> v.step(ReplyView::Flag(true)).phase is AddWorktree,
        (v.phase is RemoveWorktree || v.phase is DeleteBranch || v.phase is Save) ==> forall|
            t: Seq<char>,
        | #[trigger] v.step(ReplyView::Failed(t)).phase is LookBranch,
{
}

/// The parent goes forward to the folded tip and back to its own, in its worktree where it has
/// one; by its ref only from the commit that it is expected at.
pub proof fn law_fold_moves_the_parent_between_two_tips(v: FoldView)
    ensures
        v.phase is Advance && v.parent_worktree is Some ==> v.parent_move() == Some(
            ParentMoveView::FastForward { worktree: v.parent_worktree->0, to: v.target_sha },
        ),
        v.phase is Advance && v.parent_worktree is None ==> v.parent_move() == Some(
            ParentMoveView::Swap { branch: v.parent, to: v.target_sha, expected: v.parent_sha },
        ),
        v.phase is RestoreParent && v.parent_worktree is Some ==> v.parent_move() == Some(
            ParentMoveView::ResetKeep { worktree: v.parent_worktree->0, to: v.parent_sha },
        ),
        v.phase is RestoreParent && v.parent_worktree is None ==> v.parent_move() == Some(
            ParentMoveView::Swap { branch: v.parent, to: v.parent_sha, expected: v.target_sha },
        ),
        !(v.phase is Advance) && !(v.phase is RestoreParent) ==> v.parent_move() is None,
{
}

/// A parent worktree is set back only while it still stands at the folded tip.
pub proof fn law_moved_parent_is_not_set_back(v: FoldView, now: Seq<char>)
    requires
        v.phase is LookParent,
    ensures
        now == v.target_sha ==> v.step(ReplyView::Text(now)).phase is RestoreParent && v.step(
            ReplyView::Text(now),
        ).lost == v.lost,
        now != v.target_sha ==> v.step(ReplyView::Text(now)).phase is RestoreState && v.step(
            ReplyView::Text(now),
        ).lost.len() == v.lost.len() + 1,
{
}

/// A fold begins with the record as it is and the tips that were seen, outside the worktree that
/// goes.
pub proof fn law_fold_begins_with_what_was_seen(
    state: StackView,
    s: FoldSnapshot,
    main_root: Seq<char>,
    inside: bool,
)
    ensures
        ({
            let v = fresh_fold(state, s, main_root, inside);
            &&& v.state == state
            &&& v.original == state
            &&& v.target == s.target@
            &&& v.parent == s.parent@
            &&& v.target_sha == s.target_sha@
            &&& v.parent_sha == s.parent_sha@
            &&& v.target_worktree == opt_view(s.target_worktree)
            &&& v.parent_worktree == opt_view(s.parent_worktree)
            &&& inside ==> v.phase is MoveOut
            &&& !inside ==> v.phase is Advance
            &&& v.error is None
            &&& v.lost.len() == 0
        }),
{
}

/// A receipt of a fold names the branch, what it went into with its tips before and after, and the
/// children that were handed on.
pub proof fn law_fold_receipt_tells_both_tips(v: FoldView, commits: u64)
    ensures
        fold_receipt(v, commits) matches JsonView::Object(m) && {
            &&& m["cmd"@] == JsonView::Text("fold"@)
            &&& m["branch"@] == JsonView::Text(v.target)
            &&& m["into"@] == JsonView::Text(v.parent)
            &&& m["before_parent"@] == JsonView::Text(v.parent_sha)
            &&& m["after_parent"@] == JsonView::Text(v.target_sha)
            &&& m["folded_commits"@] == JsonView::Number(commits)
            &&& m["reparented_children"@] == text_list(v.kids)
            &&& v.target_worktree matches Some(w) ==> m["removed_worktree"@] == JsonView::Text(w)
            &&& v.target_worktree is None ==> m["removed_worktree"@] == JsonView::Null
        },
{
    reveal_strlit("cmd");
    reveal_strlit("branch");
    reveal_strlit("into");
    reveal_strlit("before_parent");
    reveal_strlit("after_parent");
    reveal_strlit("folded_commits");
    reveal_strlit("mode");
    reveal_strlit("removed_branch");
    reveal_strlit("removed_worktree");
    reveal_strlit("reparented_children");
    reveal_strlit("remote_preserved");
    assert("cmd"@.len() == 3);
    assert("branch"@.len() == 6);
    assert("into"@.len() == 4);
    assert("before_parent"@.len() == 13);
    assert("after_parent"@.len() == 12);
    assert("folded_commits"@.len() == 14);
    assert("mode"@.len() == 4);
    assert("removed_branch"@.len() == 14);
    assert("removed_worktree"@.len() == 16);
    assert("reparented_children"@.len() == 19);
    assert("remote_preserved"@.len() == 16);
    assert("into"@[0] == 'i');
    assert("mode"@[0] == 'm');
    assert("folded_commits"@[0] == 'f');
    assert("removed_branch"@[0] == 'r');
    assert("removed_worktree"@[4] == 'v');
    assert("remote_preserved"@[4] == 't');
}

/// A fold is taken back in order: the branch where it is gone, its worktree where it had one and
/// that is gone, the parent, the record; what cannot be restored is remembered, and the rest goes
/// on.
pub proof fn law_fold_is_taken_back_step_by_step(v: FoldView, t: Seq<char>)
    ensures
        ({
            let after_branch = seq![
                v.step(ReplyView::Flag(true)),
                v.step(ReplyView::Done),
                v.step(ReplyView::Failed(t)),
            ];
            &&& v.phase is LookBranch && v.target_worktree is Some ==> after_branch[0].phase is LookWorktree
            &&& v.phase is LookBranch && v.target_worktree is None && v.parent_worktree is Some
                ==> after_branch[0].phase is LookParent
            &&& v.phase is LookBranch && v.target_worktree is None && v.parent_worktree is None
                ==> after_branch[0].phase is RestoreParent
            &&& v.phase is CreateBranch && v.target_worktree is Some ==> after_branch[1].phase is LookWorktree
                && after_branch[2].phase is LookWorktree
            &&& v.phase is CreateBranch && v.target_worktree is None && v.parent_worktree is Some
                ==> after_branch[1].phase is LookParent && after_branch[2].phase is LookParent
            &&& v.phase is CreateBranch || v.phase is AddWorktree ==> after_branch[1].lost == v.lost
                && after_branch[2].lost.len() == v.lost.len() + 1
        }),
        v.phase is LookWorktree && v.parent_worktree is Some ==> v.step(
            ReplyView::Flag(false),
        ).phase is LookParent,
        v.phase is LookWorktree && v.parent_worktree is None ==> v.step(
            ReplyView::Flag(false),
        ).phase is RestoreParent,
        v.phase is AddWorktree && v.parent_worktree is Some ==> v.step(
            ReplyView::Done,
        ).phase is LookParent,
        v.phase is AddWorktree && v.parent_worktree is None ==> v.step(
            ReplyView::Done,
        ).phase is RestoreParent,
        v.phase is RestoreParent ==> v.step(ReplyView::Done).phase is RestoreState && v.step(
            ReplyView::Done,
        ).lost == v.lost,
        v.phase is RestoreParent || v.phase is LookParent ==> v.step(
            ReplyView::Failed(t),
        ).phase is RestoreState && v.step(ReplyView::Failed(t)).lost.len() == v.lost.len() + 1,
        v.phase is RestoreState ==> v.step(ReplyView::Done).phase is Failed && v.step(
            ReplyView::Done,
        ).error is Some,
{
}

/// The children that a fold hands on are those of the folded branch, by name.
pub proof fn law_fold_tells_the_children(v: FoldView, k: Seq<char>)
    requires
        v.phase is DeleteBranch,
        v.state.branches.dom().finite(),
    ensures
        v.step(ReplyView::Done).kids.contains(k) <==> v.state.branches.contains_key(k)
            && v.state.branches[k].parent == v.target,
        crate::text::sorted(v.step(ReplyView::Done).kids),
{
    let m = v.state.branches;
    let kids = children(m, v.target);
    assert(kids.subset_of(m.dom()));
    vstd::set_lib::lemma_set_subset_finite(m.dom(), kids);
    crate::names::lemma_ranked_exists(kids);
    crate::stack::law_children_name_their_parent(m, v.target, k);
    assert(ranked(kids).contains(k) <==> kids.contains(k));
}

} // verus!
