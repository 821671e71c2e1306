//! Adopting candidates in one transaction: either all of it is saved, or the branches and
//! worktrees made on the way are removed again and the recorded stack stays as it was.

use crate::branch_map::MetaView;
use crate::cmd::adopt::{branches_of, candidate_views, AdoptCandidate, CandidateView};
use crate::error::{ErrorView, EzError};
use crate::git::{find_path, pair_views, path_of, Reply, ReplyView};
use crate::stack::{fresh_meta, StackState, StackView};
use crate::text::{all_but, opt_view, views, without};
use vstd::prelude::*;
use vstd::string::*;

verus! {

/// What the transaction is waiting for.
#[derive(Clone, Copy, Debug, PartialEq, Eq, Structural)]
pub enum AdoptPhase {
    /// Whether the candidate's branch exists.
    Check,
    /// The creation of the candidate's branch.
    Create,
    /// The commit where the candidate's branch leaves its base.
    Base,
    /// The removal of a branch made for a candidate that cannot be adopted.
    Drop,
    /// The list of worktrees.
    List,
    /// The path for the candidate's worktree.
    Path,
    /// The creation of the candidate's worktree.
    Add,
    /// The saving of the stack.
    Save,
    /// The removal of what was made, after a failure.
    Undo,
    /// Nothing: everything is saved.
    Finished,
    /// Nothing: everything is undone.
    Failed,
}

/// One removal of something that the transaction made.
#[derive(Debug)]
pub enum Removal {
    Worktree(String),
    Branch(String),
}

/// The contents of a `Removal`.
#[verifier::ext_equal]
pub enum RemovalView {
    Worktree(Seq<char>),
    Branch(Seq<char>),
}

impl View for Removal {
    type V = RemovalView;

    open spec fn view(&self) -> RemovalView {
        match *self {
            Removal::Worktree(p) => RemovalView::Worktree(p@),
            Removal::Branch(b) => RemovalView::Branch(b@),
        }
    }
}

/// The contents of a list of removals.
pub open spec fn removal_views(s: Seq<Removal>) -> Seq<RemovalView> {
    s.map_values(|r: Removal| r@)
}

#[derive(Debug)]
struct AdoptionData {
    state: StackState,
    original: StackState,
    candidates: Vec<AdoptCandidate>,
    refs: Vec<Option<String>>,
    no_worktrees: bool,
    abort: bool,
    phase: AdoptPhase,
    at: usize,
    existed: bool,
    path: String,
    created: Vec<String>,
    adopted: usize,
    skipped: usize,
    known: Vec<(String, String)>,
    paths: Vec<String>,
    created_paths: Vec<String>,
    removals: Vec<Removal>,
    removed: usize,
    error: Option<EzError>,
}

/// The contents of an `Adoption`.
#[verifier::ext_equal]
pub struct AdoptionView {
    /// The stack as it will be saved.
    pub state: StackView,
    /// The stack as it was.
    pub original: StackView,
    pub candidates: Seq<CandidateView>,
    /// The ref that each candidate's branch is made from, where it does not exist.
    pub refs: Seq<Option<Seq<char>>>,
    pub no_worktrees: bool,
    /// Whether a base that cannot be resolved ends the transaction.
    pub abort: bool,
    pub phase: AdoptPhase,
    /// The candidate in work.
    pub at: int,
    /// Whether its branch was there before.
    pub existed: bool,
    /// The path of its new worktree.
    pub path: Seq<char>,
    /// The branches made so far.
    pub created: Seq<Seq<char>>,
    pub adopted: int,
    pub skipped: int,
    /// The known worktrees by branch.
    pub known: Seq<(Seq<char>, Seq<char>)>,
    /// The worktree of each candidate so far.
    pub paths: Seq<Seq<char>>,
    /// The worktrees made so far.
    pub created_paths: Seq<Seq<char>>,
    pub removals: Seq<RemovalView>,
    pub removed: int,
    pub error: Option<ErrorView>,
}

/// The contents of a list of refs.
pub open spec fn ref_views(s: Seq<Option<String>>) -> Seq<Option<Seq<char>>> {
    s.map_values(|r: Option<String>| opt_view(r))
}

/// The contents of an optional error.
pub open spec fn opt_error(e: Option<EzError>) -> Option<ErrorView> {
    match e {
        Some(x) => Some(x@),
        None => None,
    }
}

impl View for AdoptionData {
    type V = AdoptionView;

    closed spec fn view(&self) -> AdoptionView {
        AdoptionView {
            state: self.state@,
            original: self.original@,
            candidates: candidate_views(self.candidates@),
            refs: ref_views(self.refs@),
            no_worktrees: self.no_worktrees,
            abort: self.abort,
            phase: self.phase,
            at: self.at as int,
            existed: self.existed,
            path: self.path@,
            created: views(self.created@),
            adopted: self.adopted as int,
            skipped: self.skipped as int,
            known: pair_views(self.known@),
            paths: views(self.paths@),
            created_paths: views(self.created_paths@),
            removals: removal_views(self.removals@),
            removed: self.removed as int,
            error: opt_error(self.error),
        }
    }
}

/// What has to be removed after a failure: the worktrees made, latest first, then the branches
/// made, latest first.
pub open spec fn removals_for(paths: Seq<Seq<char>>, branches: Seq<Seq<char>>) -> Seq<
    RemovalView,
> {
    Seq::new(
        paths.len() + branches.len(),
        |i: int|
            if i < paths.len() {
                RemovalView::Worktree(paths[paths.len() - 1 - i])
            } else {
                RemovalView::Branch(branches[branches.len() - 1 - (i - paths.len())])
            },
    )
}

impl AdoptionView {
    /// The candidate in work.
    pub open spec fn candidate(self) -> CandidateView {
        self.candidates[self.at]
    }

    /// Goes on with candidate `i`, or past the last one.
    pub open spec fn on(self, i: int) -> AdoptionView {
        if i < self.candidates.len() {
            AdoptionView { phase: AdoptPhase::Check, at: i, ..self }
        } else if self.no_worktrees {
            AdoptionView { phase: AdoptPhase::Save, at: i, ..self }
        } else {
            AdoptionView { phase: AdoptPhase::List, at: i, ..self }
        }
    }

    /// Counts the candidate as skipped and goes on.
    pub open spec fn skip(self) -> AdoptionView {
        AdoptionView { skipped: self.skipped + 1, ..self }.on(self.at + 1)
    }

    /// Ends the transaction: the stack is as it was, and what was made is removed.
    pub open spec fn fail(self, e: ErrorView) -> AdoptionView {
        let removals = removals_for(self.created_paths, self.created);
        AdoptionView {
            state: self.original,
            removals: removals,
            removed: 0,
            error: Some(e),
            phase: if removals.len() == 0 {
                AdoptPhase::Failed
            } else {
                AdoptPhase::Undo
            },
            ..self
        }
    }

    /// The stack with the candidate's pull request recorded, where none was.
    pub open spec fn with_pr(self) -> AdoptionView {
        let c = self.candidate();
        let meta = self.state.branches[c.branch];
        if meta.pr_number is None && c.pr_number is Some {
            AdoptionView {
                state: self.state.with_branches(
                    self.state.branches.insert(
                        c.branch,
                        MetaView { pr_number: c.pr_number, ..meta },
                    ),
                ),
                ..self
            }
        } else {
            self
        }
    }

    /// Goes on once the candidate's branch exists: a recorded branch is skipped.
    pub open spec fn branched(self) -> AdoptionView {
        if self.state.managed(self.candidate().branch) {
            self.with_pr().skip()
        } else {
            AdoptionView { phase: AdoptPhase::Base, ..self }
        }
    }

    /// Goes on without the candidate, whose base could not be resolved: its branch is removed
    /// if it was made here.
    pub open spec fn give_up(self) -> AdoptionView {
        if self.existed {
            self.skip()
        } else {
            AdoptionView { phase: AdoptPhase::Drop, ..self }
        }
    }

    /// Records the candidate on the commit `head` of its base.
    pub open spec fn adopt(self, head: Seq<char>) -> AdoptionView {
        let c = self.candidate();
        AdoptionView {
            state: self.state.with_branches(
                self.state.branches.insert(
                    c.branch,
                    MetaView {
                        pr_number: c.pr_number,
                        ..fresh_meta(c.base, head, None, None)
                    },
                ),
            ),
            adopted: self.adopted + 1,
            ..self
        }.on(self.at + 1)
    }

    /// Takes the known worktrees of the candidates from `i` on, up to one that has none.
    pub open spec fn settle(self, i: int) -> AdoptionView
        decreases self.candidates.len() - i,
    {
        if i >= self.candidates.len() {
            AdoptionView { phase: AdoptPhase::Save, at: i, ..self }
        } else {
            match path_of(self.known, self.candidates[i].branch) {
                Some(p) => AdoptionView { paths: self.paths.push(p), ..self }.settle(i + 1),
                None => AdoptionView { phase: AdoptPhase::Path, at: i, ..self },
            }
        }
    }

    /// The transaction after a reply. A reply that it does not wait for changes nothing.
    pub open spec fn step(self, reply: ReplyView) -> AdoptionView {
        let c = self.candidate();
        match (self.phase, reply) {
            (AdoptPhase::Check, ReplyView::Flag(exists)) => if exists {
                AdoptionView { existed: true, ..self }.branched()
            } else {
                let v = AdoptionView { existed: false, ..self };
                match self.refs[self.at] {
                    Some(_) => AdoptionView { phase: AdoptPhase::Create, ..v },
                    None => v.fail(
                        ErrorView::Other(
                            "internal error: missing fetched source ref for `"@ + c.branch + "`"@,
                        ),
                    ),
                }
            },
            (AdoptPhase::Create, ReplyView::Done) => AdoptionView {
                created: self.created.push(c.branch),
                ..self
            }.branched(),
            (AdoptPhase::Create, ReplyView::Failed(t)) => self.fail(ErrorView::Other(t)),
            (AdoptPhase::Base, ReplyView::Failed(t)) => if self.abort {
                self.fail(
                    ErrorView::UserMessage(
                        "could not resolve parent `"@ + c.base + "` for `"@ + c.branch + "`: "@ + t,
                    ),
                )
            } else {
                self.give_up()
            },
            (AdoptPhase::Base, ReplyView::Text(head)) => if head.len() > 0 {
                self.adopt(head)
            } else if self.abort {
                self.fail(
                    ErrorView::UserMessage(
                        "could not resolve parent `"@ + c.base + "` for `"@ + c.branch + "`"@,
                    ),
                )
            } else {
                self.give_up()
            },
            (AdoptPhase::Drop, ReplyView::Done) => self.dropped(),
            (AdoptPhase::Drop, ReplyView::Failed(_)) => self.dropped(),
            (AdoptPhase::List, ReplyView::Worktrees(known)) => AdoptionView {
                known: known,
                ..self
            }.settle(0),
            (AdoptPhase::List, ReplyView::Failed(t)) => self.fail(ErrorView::Other(t)),
            (AdoptPhase::Path, ReplyView::Text(p)) => AdoptionView {
                path: p,
                phase: AdoptPhase::Add,
                ..self
            },
            (AdoptPhase::Path, ReplyView::Failed(t)) => self.fail(ErrorView::Other(t)),
            (AdoptPhase::Add, ReplyView::Done) => AdoptionView {
                known: self.known.push((c.branch, self.path)),
                paths: self.paths.push(self.path),
                created_paths: self.created_paths.push(self.path),
                ..self
            }.settle(self.at + 1),
            (AdoptPhase::Add, ReplyView::Failed(t)) => self.fail(ErrorView::Other(t)),
            (AdoptPhase::Save, ReplyView::Done) => AdoptionView {
                phase: AdoptPhase::Finished,
                ..self
            },
            (AdoptPhase::Save, ReplyView::Failed(t)) => self.fail(ErrorView::Other(t)),
            (AdoptPhase::Undo, ReplyView::Done) => self.undone(),
            (AdoptPhase::Undo, ReplyView::Failed(_)) => self.undone(),
            _ => self,
        }
    }

    /// Forgets a branch made for a candidate that is skipped.
    pub open spec fn dropped(self) -> AdoptionView {
        let b = self.candidate().branch;
        AdoptionView { created: without(self.created, b), ..self }.skip()
    }

    /// Goes on after a removal, whether it succeeded or not.
    pub open spec fn undone(self) -> AdoptionView {
        AdoptionView {
            removed: self.removed + 1,
            phase: if self.removed + 1 < self.removals.len() {
                AdoptPhase::Undo
            } else {
                AdoptPhase::Failed
            },
            ..self
        }
    }

    /// What holds throughout the transaction.
    pub open spec fn wf(self) -> bool {
        &&& self.refs.len() == self.candidates.len()
        &&& 0 <= self.at <= self.candidates.len()
        &&& 0 <= self.adopted
        &&& 0 <= self.skipped
        &&& 0 <= self.removed <= self.removals.len()
        &&& match self.phase {
            AdoptPhase::Check | AdoptPhase::Base | AdoptPhase::Drop => {
                &&& self.phase is Base ==> !self.state.managed(self.candidate().branch)
                &&& self.at < self.candidates.len()
                &&& self.adopted + self.skipped == self.at
                &&& self.paths.len() == 0
                &&& self.created_paths.len() == 0
            },
            AdoptPhase::Create => {
                &&& self.at < self.candidates.len()
                &&& self.refs[self.at] is Some
                &&& self.adopted + self.skipped == self.at
                &&& self.paths.len() == 0
                &&& self.created_paths.len() == 0
            },
            AdoptPhase::List => {
                &&& !self.no_worktrees
                &&& self.adopted + self.skipped == self.candidates.len()
                &&& self.paths.len() == 0
                &&& self.created_paths.len() == 0
            },
            AdoptPhase::Path | AdoptPhase::Add => {
                &&& !self.no_worktrees
                &&& self.at < self.candidates.len()
                &&& self.adopted + self.skipped == self.candidates.len()
                &&& self.paths.len() == self.at
            },
            AdoptPhase::Save | AdoptPhase::Finished => {
                &&& self.adopted + self.skipped == self.candidates.len()
                &&& self.paths.len() == (if self.no_worktrees {
                    0
                } else {
                    self.candidates.len()
                })
                &&& self.no_worktrees ==> self.created_paths.len() == 0
            },
            AdoptPhase::Undo => self.undoing() && self.removed < self.removals.len(),
            AdoptPhase::Failed => self.undoing() && self.removed == self.removals.len(),
        }
    }

    /// What holds after a failure: the stack is as it was, and everything made is to be removed.
    pub open spec fn undoing(self) -> bool {
        &&& self.state == self.original
        &&& self.removals == removals_for(self.created_paths, self.created)
        &&& self.error is Some
    }
}

proof fn lemma_settle(v: AdoptionView, i: int)
    requires
        0 <= i <= v.candidates.len(),
    ensures
        ({
            let w = v.settle(i);
            &&& w == (AdoptionView { phase: w.phase, at: w.at, paths: w.paths, ..v })
            &&& i <= w.at <= v.candidates.len()
            &&& w.paths.len() == v.paths.len() + w.at - i
            &&& w.phase == AdoptPhase::Save && w.at == v.candidates.len() || w.phase
                == AdoptPhase::Path && w.at < v.candidates.len()
        }),
    decreases v.candidates.len() - i,
{
    if i < v.candidates.len() {
        match path_of(v.known, v.candidates[i].branch) {
            Some(p) => lemma_settle(AdoptionView { paths: v.paths.push(p), ..v }, i + 1),
            None => {},
        }
    }
}

/// Every reply keeps what holds throughout the transaction.
pub proof fn law_step_keeps_order(v: AdoptionView, reply: ReplyView)
    requires
        v.wf(),
    ensures
        v.step(reply).wf(),
{
    if let (AdoptPhase::List, ReplyView::Worktrees(known)) = (v.phase, reply) {
        lemma_settle(AdoptionView { known: known, ..v }, 0);
    }
    if let (AdoptPhase::Add, ReplyView::Done) = (v.phase, reply) {
        lemma_settle(
            AdoptionView {
                known: v.known.push((v.candidate().branch, v.path)),
                paths: v.paths.push(v.path),
                created_paths: v.created_paths.push(v.path),
                ..v
            },
            v.at + 1,
        );
    }
}

impl AdoptionData {
    /// Goes on with candidate `i`, or past the last one.
    fn on(&mut self, i: usize)
        ensures
            final(self)@ == old(self)@.on(i as int),
    {
        self.at = i;
        if i < self.candidates.len() {
            self.phase = AdoptPhase::Check;
        } else if self.no_worktrees {
            self.phase = AdoptPhase::Save;
        } else {
            self.phase = AdoptPhase::List;
        }
    }

    /// Counts the candidate as skipped and goes on.
    fn skip(&mut self)
        requires
            old(self).at < old(self).candidates.len(),
            old(self).skipped < old(self).candidates.len(),
        ensures
            final(self)@ == old(self)@.skip(),
    {
        self.skipped = self.skipped + 1;
        self.on(self.at + 1);
    }

    /// Ends the transaction.
    fn fail(&mut self, e: EzError)
        ensures
            final(self)@ == old(self)@.fail(e@),
    {
        let ghost paths = views(self.created_paths@);
        let ghost names = views(self.created@);
        let ghost goal = removals_for(paths, names);
        let mut removals: Vec<Removal> = Vec::new();
        let mut i: usize = self.created_paths.len();
        while i > 0
            invariant
                i <= self.created_paths.len(),
                paths == views(self.created_paths@),
                names == views(self.created@),
                goal == removals_for(paths, names),
                removals.len() == paths.len() - i,
                forall|j: int| 0 <= j < removals.len() ==> (#[trigger] removals@[j])@ == goal[j],
            decreases i,
        {
            i -= 1;
            removals.push(Removal::Worktree(self.created_paths[i].clone()));
        }
        let mut k: usize = self.created.len();
        while k > 0
            invariant
                k <= self.created.len(),
                paths == views(self.created_paths@),
                names == views(self.created@),
                goal == removals_for(paths, names),
                removals.len() == paths.len() + names.len() - k,
                forall|j: int| 0 <= j < removals.len() ==> (#[trigger] removals@[j])@ == goal[j],
            decreases k,
        {
            k -= 1;
            removals.push(Removal::Branch(self.created[k].clone()));
        }
        assert(removal_views(removals@) =~= goal);
        self.phase = if removals.len() == 0 {
            AdoptPhase::Failed
        } else {
            AdoptPhase::Undo
        };
        self.removals = removals;
        self.removed = 0;
        self.state = self.original.copy();
        self.error = Some(e);
    }

    /// Goes on once the candidate's branch exists.
    fn branched(&mut self)
        requires
            old(self).at < old(self).candidates.len(),
            old(self).skipped < old(self).candidates.len(),
        ensures
            final(self)@ == old(self)@.branched(),
    {
        let ghost before = self@;
        let number: Option<u64> = self.candidates[self.at].pr_number;
        let branch: String = self.candidates[self.at].branch.clone();
        assert(before.candidate() == self.candidates@[self.at as int]@);
        let unset: Option<bool> = match self.state.branches.get(&branch) {
            Some(meta) => Some(meta.pr_number.is_none()),
            None => None,
        };
        match unset {
            None => {
                self.phase = AdoptPhase::Base;
            },
            Some(none) => {
                if none && number.is_some() {
                    let _ = self.state.set_pr_number(&branch, number);
                }
                assert(self@ == before.with_pr());
                self.skip();
            },
        }
    }

    /// Goes on without the candidate.
    fn give_up(&mut self)
        requires
            old(self).at < old(self).candidates.len(),
            old(self).skipped < old(self).candidates.len(),
        ensures
            final(self)@ == old(self)@.give_up(),
    {
        if self.existed {
            self.skip();
        } else {
            self.phase = AdoptPhase::Drop;
        }
    }

    /// Records the candidate on the commit `head` of its base.
    fn adopt(&mut self, head: &str)
        requires
            old(self).at < old(self).candidates.len(),
            old(self).adopted < old(self).candidates.len(),
        ensures
            final(self)@ == old(self)@.adopt(head@),
    {
        let ghost before = self@;
        let branch: String = self.candidates[self.at].branch.clone();
        let base: String = self.candidates[self.at].base.clone();
        let number: Option<u64> = self.candidates[self.at].pr_number;
        assert(before.candidate() == self.candidates@[self.at as int]@);
        self.state.add_branch(&branch, &base, head, None, None);
        let _ = self.state.set_pr_number(&branch, number);
        assert(self.state@.branches =~= before.state.branches.insert(
            branch@,
            MetaView { pr_number: number, ..fresh_meta(base@, head@, None, None) },
        ));
        self.adopted = self.adopted + 1;
        self.on(self.at + 1);
    }

    /// Forgets a branch made for a candidate that is skipped.
    fn dropped(&mut self)
        requires
            old(self).at < old(self).candidates.len(),
            old(self).skipped < old(self).candidates.len(),
        ensures
            final(self)@ == old(self)@.dropped(),
    {
        let ghost before = self@;
        let branch: String = self.candidates[self.at].branch.clone();
        assert(before.candidate() == self.candidates@[self.at as int]@);
        let kept: Vec<String> = all_but(&self.created, &branch);
        self.created = kept;
        self.skip();
    }

    /// Takes the known worktrees of the candidates from `i` on, up to one that has none.
    fn settle(&mut self, i: usize)
        requires
            i <= old(self).candidates.len(),
        ensures
            final(self)@ == old(self)@.settle(i as int),
        decreases old(self).candidates.len() - i,
    {
        if i >= self.candidates.len() {
            self.phase = AdoptPhase::Save;
            self.at = i;
            return;
        }
        let ghost before = self@;
        assert(before.candidates[i as int] == self.candidates@[i as int]@);
        match find_path(&self.known, &self.candidates[i].branch) {
            Some(p) => {
                self.paths.push(p);
                assert(views(self.paths@) =~= before.paths.push(p@));
                self.settle(i + 1);
            },
            None => {
                self.phase = AdoptPhase::Path;
                self.at = i;
            },
        }
    }

    /// Goes on after a removal.
    fn undone(&mut self)
        requires
            old(self).removed < old(self).removals.len(),
        ensures
            final(self)@ == old(self)@.undone(),
    {
        self.removed = self.removed + 1;
        self.phase = if self.removed < self.removals.len() {
            AdoptPhase::Undo
        } else {
            AdoptPhase::Failed
        };
    }

    fn step_branch(&mut self, reply: Reply)
        requires
            old(self)@.wf(),
            old(self).phase is Check || old(self).phase is Create || old(self).phase is Base
                || old(self).phase is Drop,
        ensures
            final(self)@ == old(self)@.step(reply@),
    {
        let ghost before = self@;
        assert(before.candidate() == self.candidates@[self.at as int]@);
        match (self.phase, reply) {
            (AdoptPhase::Check, Reply::Flag(exists)) => {
                self.existed = exists;
                if exists {
                    self.branched();
                } else {
                    assert(before.refs[self.at as int] == opt_view(self.refs@[self.at as int]));
                    if self.refs[self.at].is_some() {
                        self.phase = AdoptPhase::Create;
                    } else {
                        let text: String = String::from_str(
                            "internal error: missing fetched source ref for `",
                        ).concat(&self.candidates[self.at].branch).concat("`");
                        self.fail(EzError::Other(text));
                    }
                }
            },
            (AdoptPhase::Create, Reply::Done) => {
                self.created.push(self.candidates[self.at].branch.clone());
                assert(views(self.created@) =~= before.created.push(before.candidate().branch));
                self.branched();
            },
            (AdoptPhase::Create, Reply::Failed(t)) => self.fail(EzError::Other(t)),
            (AdoptPhase::Base, Reply::Failed(t)) => {
                if self.abort {
                    let text: String = String::from_str("could not resolve parent `").concat(
                        &self.candidates[self.at].base,
                    ).concat("` for `").concat(&self.candidates[self.at].branch).concat(
                        "`: ",
                    ).concat(&t);
                    self.fail(EzError::UserMessage(text));
                } else {
                    self.give_up();
                }
            },
            (AdoptPhase::Base, Reply::Text(head)) => {
                if !head.as_str().is_empty() {
                    self.adopt(&head);
                } else if self.abort {
                    let text: String = String::from_str("could not resolve parent `").concat(
                        &self.candidates[self.at].base,
                    ).concat("` for `").concat(&self.candidates[self.at].branch).concat("`");
                    self.fail(EzError::UserMessage(text));
                } else {
                    self.give_up();
                }
            },
            (AdoptPhase::Drop, Reply::Done) => self.dropped(),
            (AdoptPhase::Drop, Reply::Failed(_)) => self.dropped(),
            _ => {},
        }
    }

    fn step_worktree(&mut self, reply: Reply)
        requires
            old(self)@.wf(),
            old(self).phase is List || old(self).phase is Path || old(self).phase is Add,
        ensures
            final(self)@ == old(self)@.step(reply@),
    {
        let ghost before = self@;
        match (self.phase, reply) {
            (AdoptPhase::List, Reply::Worktrees(known)) => {
                self.known = known;
                self.settle(0);
            },
            (AdoptPhase::List, Reply::Failed(t)) => self.fail(EzError::Other(t)),
            (AdoptPhase::Path, Reply::Text(p)) => {
                self.path = p;
                self.phase = AdoptPhase::Add;
            },
            (AdoptPhase::Path, Reply::Failed(t)) => self.fail(EzError::Other(t)),
            (AdoptPhase::Add, Reply::Done) => {
                assert(before.at < before.candidates.len());
                let ghost at = self.at;
                let branch: String = self.candidates[self.at].branch.clone();
                self.known.push((branch, self.path.clone()));
                self.paths.push(self.path.clone());
                self.created_paths.push(self.path.clone());
                proof {
                    assert(pair_views(self.known@) =~= before.known.push(
                        (before.candidate().branch, before.path),
                    ));
                    assert(views(self.paths@) =~= before.paths.push(before.path));
                    assert(views(self.created_paths@) =~= before.created_paths.push(before.path));
                }
                assert(self.at == at && at < self.candidates.len());
                self.settle(self.at + 1);
            },
            (AdoptPhase::Add, Reply::Failed(t)) => self.fail(EzError::Other(t)),
            _ => {},
        }
    }

    fn step(&mut self, reply: Reply)
        requires
            old(self)@.wf(),
        ensures
            final(self)@ == old(self)@.step(reply@),
    {
        match self.phase {
            AdoptPhase::Check | AdoptPhase::Create | AdoptPhase::Base | AdoptPhase::Drop => {
                self.step_branch(reply);
                return;
            },
            AdoptPhase::List | AdoptPhase::Path | AdoptPhase::Add => {
                self.step_worktree(reply);
                return;
            },
            _ => {},
        }
        match (self.phase, reply) {
            (AdoptPhase::Save, Reply::Done) => {
                self.phase = AdoptPhase::Finished;
            },
            (AdoptPhase::Save, Reply::Failed(t)) => self.fail(EzError::Other(t)),
            (AdoptPhase::Undo, Reply::Done) => self.undone(),
            (AdoptPhase::Undo, Reply::Failed(_)) => self.undone(),
            _ => {},
        }
    }
}

/// What the transaction asks for next.
#[derive(Debug)]
pub enum AdoptAction {
    /// Does the branch exist? Answered by a flag.
    CheckBranch(String),
    /// Make the branch at a ref.
    CreateBranch { branch: String, at: String },
    /// Find the commit where the branch leaves its parent. Answered by a text.
    MergeBase { branch: String, parent: String },
    /// Delete the branch, merged or not.
    DeleteBranch(String),
    /// List the worktrees. Answered by worktrees.
    ListWorktrees,
    /// Find the path for the branch's worktree. Answered by a text.
    WorktreePath(String),
    /// Make a worktree for the branch.
    AddWorktree { path: String, branch: String },
    /// Remove the worktree.
    RemoveWorktree(String),
    /// Save the stack.
    Save,
    /// Nothing more: everything is saved.
    Finished,
    /// Nothing more: everything is undone.
    Failed,
}

/// The contents of an `AdoptAction`.
#[verifier::ext_equal]
pub enum AdoptActionView {
    CheckBranch(Seq<char>),
    CreateBranch { branch: Seq<char>, at: Seq<char> },
    MergeBase { branch: Seq<char>, parent: Seq<char> },
    DeleteBranch(Seq<char>),
    ListWorktrees,
    WorktreePath(Seq<char>),
    AddWorktree { path: Seq<char>, branch: Seq<char> },
    RemoveWorktree(Seq<char>),
    Save,
    Finished,
    Failed,
}

impl View for AdoptAction {
    type V = AdoptActionView;

    open spec fn view(&self) -> AdoptActionView {
        match *self {
            AdoptAction::CheckBranch(b) => AdoptActionView::CheckBranch(b@),
            AdoptAction::CreateBranch { branch, at } => AdoptActionView::CreateBranch {
                branch: branch@,
                at: at@,
            },
            AdoptAction::MergeBase { branch, parent } => AdoptActionView::MergeBase {
                branch: branch@,
                parent: parent@,
            },
            AdoptAction::DeleteBranch(b) => AdoptActionView::DeleteBranch(b@),
            AdoptAction::ListWorktrees => AdoptActionView::ListWorktrees,
            AdoptAction::WorktreePath(b) => AdoptActionView::WorktreePath(b@),
            AdoptAction::AddWorktree { path, branch } => AdoptActionView::AddWorktree {
                path: path@,
                branch: branch@,
            },
            AdoptAction::RemoveWorktree(p) => AdoptActionView::RemoveWorktree(p@),
            AdoptAction::Save => AdoptActionView::Save,
            AdoptAction::Finished => AdoptActionView::Finished,
            AdoptAction::Failed => AdoptActionView::Failed,
        }
    }
}

impl AdoptionView {
    /// What the transaction asks for next.
    pub open spec fn action(self) -> AdoptActionView {
        let c = self.candidate();
        match self.phase {
            AdoptPhase::Check => AdoptActionView::CheckBranch(c.branch),
            AdoptPhase::Create => AdoptActionView::CreateBranch {
                branch: c.branch,
                at: self.refs[self.at]->0,
            },
            AdoptPhase::Base => AdoptActionView::MergeBase { branch: c.branch, parent: c.base },
            AdoptPhase::Drop => AdoptActionView::DeleteBranch(c.branch),
            AdoptPhase::List => AdoptActionView::ListWorktrees,
            AdoptPhase::Path => AdoptActionView::WorktreePath(c.branch),
            AdoptPhase::Add => AdoptActionView::AddWorktree { path: self.path, branch: c.branch },
            AdoptPhase::Save => AdoptActionView::Save,
            AdoptPhase::Undo => match self.removals[self.removed] {
                RemovalView::Worktree(p) => AdoptActionView::RemoveWorktree(p),
                RemovalView::Branch(b) => AdoptActionView::DeleteBranch(b),
            },
            AdoptPhase::Finished => AdoptActionView::Finished,
            AdoptPhase::Failed => AdoptActionView::Failed,
        }
    }
}

/// A transaction that adopts candidates.
#[derive(Debug)]
pub struct Adoption {
    data: AdoptionData,
}

impl View for Adoption {
    type V = AdoptionView;

    closed spec fn view(&self) -> AdoptionView {
        self.data@
    }
}

/// A transaction at its start.
pub open spec fn fresh_adoption(
    state: StackView,
    candidates: Seq<CandidateView>,
    refs: Seq<Option<Seq<char>>>,
    no_worktrees: bool,
    abort: bool,
) -> AdoptionView {
    AdoptionView {
        state,
        original: state,
        candidates,
        refs,
        no_worktrees,
        abort,
        phase: AdoptPhase::Check,
        at: 0,
        existed: false,
        path: Seq::empty(),
        created: Seq::empty(),
        adopted: 0,
        skipped: 0,
        known: Seq::empty(),
        paths: Seq::empty(),
        created_paths: Seq::empty(),
        removals: Seq::empty(),
        removed: 0,
        error: None,
    }.on(0)
}

impl Adoption {
    #[verifier::type_invariant]
    spec fn in_order(self) -> bool {
        self.data@.wf()
    }

    /// Starts a transaction. `refs` gives, for each candidate, the ref that its branch is made
    /// from where it does not exist; one that is left out counts as unknown.
    pub fn begin(
        state: &StackState,
        candidates: Vec<AdoptCandidate>,
        refs: Vec<Option<String>>,
        no_worktrees: bool,
        abort_on_parent_resolution_failure: bool,
    ) -> (r: Adoption)
        ensures
            r@ == fresh_adoption(
                state@,
                candidate_views(candidates@),
                Seq::new(
                    candidates@.len(),
                    |i: int|
                        if i < refs@.len() {
                            opt_view(refs@[i])
                        } else {
                            None
                        },
                ),
                no_worktrees,
                abort_on_parent_resolution_failure,
            ),
    {
        let ghost goal = Seq::new(
            candidates@.len(),
            |i: int|
                if i < refs@.len() {
                    opt_view(refs@[i])
                } else {
                    None
                },
        );
        let ghost given = refs@;
        let mut refs = refs;
        refs.truncate(candidates.len());
        while refs.len() < candidates.len()
            invariant
                refs.len() <= candidates.len(),
                goal == Seq::new(
                    candidates@.len(),
                    |i: int|
                        if i < given.len() {
                            opt_view(given[i])
                        } else {
                            None
                        },
                ),
                refs.len() < candidates.len() ==> refs.len() >= given.len(),
                forall|i: int| 0 <= i < refs.len() ==> opt_view(#[trigger] refs@[i]) == goal[i],
            decreases candidates.len() - refs.len(),
        {
            refs.push(None);
        }
        assert(ref_views(refs@) =~= goal);
        let ghost names = candidate_views(candidates@);
        let mut data = AdoptionData {
            state: state.copy(),
            original: state.copy(),
            candidates,
            refs,
            no_worktrees,
            abort: abort_on_parent_resolution_failure,
            phase: AdoptPhase::Check,
            at: 0,
            existed: false,
            path: String::new(),
            created: Vec::new(),
            adopted: 0,
            skipped: 0,
            known: Vec::new(),
            paths: Vec::new(),
            created_paths: Vec::new(),
            removals: Vec::new(),
            removed: 0,
            error: None,
        };
        proof {
            assert(views(data.created@) =~= Seq::<Seq<char>>::empty());
            assert(pair_views(data.known@) =~= Seq::<(Seq<char>, Seq<char>)>::empty());
            assert(removal_views(data.removals@) =~= Seq::<RemovalView>::empty());
        }
        data.on(0);
        Adoption { data }
    }

    /// The transaction after a reply to what it asked for.
    pub fn step(self, reply: Reply) -> (r: Adoption)
        ensures
            r@ == self@.step(reply@),
    {
        proof {
            use_type_invariant(&self);
            law_step_keeps_order(self@, reply@);
        }
        let mut data = self.data;
        data.step(reply);
        Adoption { data }
    }

    /// What the transaction asks for next.
    pub fn action(&self) -> (r: AdoptAction)
        ensures
            r@ == self@.action(),
    {
        proof {
            use_type_invariant(self);
        }
        let d: &AdoptionData = &self.data;
        match d.phase {
            AdoptPhase::Check => AdoptAction::CheckBranch(d.candidates[d.at].branch.clone()),
            AdoptPhase::Create => {
                assert(self@.refs[d.at as int] == opt_view(d.refs@[d.at as int]));
                let at: String = match &d.refs[d.at] {
                    Some(r) => r.clone(),
                    None => String::new(),
                };
                AdoptAction::CreateBranch { branch: d.candidates[d.at].branch.clone(), at }
            },
            AdoptPhase::Base => AdoptAction::MergeBase {
                branch: d.candidates[d.at].branch.clone(),
                parent: d.candidates[d.at].base.clone(),
            },
            AdoptPhase::Drop => AdoptAction::DeleteBranch(d.candidates[d.at].branch.clone()),
            AdoptPhase::List => AdoptAction::ListWorktrees,
            AdoptPhase::Path => AdoptAction::WorktreePath(d.candidates[d.at].branch.clone()),
            AdoptPhase::Add => AdoptAction::AddWorktree {
                path: d.path.clone(),
                branch: d.candidates[d.at].branch.clone(),
            },
            AdoptPhase::Save => AdoptAction::Save,
            AdoptPhase::Undo => {
                assert(self@.removals[d.removed as int] == d.removals@[d.removed as int]@);
                match &d.removals[d.removed] {
                    Removal::Worktree(p) => AdoptAction::RemoveWorktree(p.clone()),
                    Removal::Branch(b) => AdoptAction::DeleteBranch(b.clone()),
                }
            },
            AdoptPhase::Finished => AdoptAction::Finished,
            AdoptPhase::Failed => AdoptAction::Failed,
        }
    }

    /// The stack as it will be saved.
    pub fn state(&self) -> (r: &StackState)
        ensures
            r@ == self@.state,
    {
        &self.data.state
    }

    /// How many candidates were recorded.
    pub fn adopted(&self) -> (r: usize)
        ensures
            r == self@.adopted,
    {
        self.data.adopted
    }

    /// How many candidates were passed over.
    pub fn skipped(&self) -> (r: usize)
        ensures
            r == self@.skipped,
    {
        self.data.skipped
    }

    /// The worktree of each candidate.
    pub fn paths(&self) -> (r: &Vec<String>)
        ensures
            views(r@) == self@.paths,
    {
        &self.data.paths
    }

    /// The worktrees that the transaction made.
    pub fn created_paths(&self) -> (r: &Vec<String>)
        ensures
            views(r@) == self@.created_paths,
    {
        &self.data.created_paths
    }

    /// Why the transaction failed.
    pub fn error(&self) -> (r: &Option<EzError>)
        ensures
            opt_error(*r) == self@.error,
    {
        &self.data.error
    }
}

/// A transaction after all of `replies`.
pub open spec fn run(v: AdoptionView, replies: Seq<ReplyView>) -> AdoptionView
    decreases replies.len(),
{
    if replies.len() == 0 {
        v
    } else {
        run(v, replies.drop_last()).step(replies.last())
    }
}

proof fn lemma_run(v: AdoptionView, replies: Seq<ReplyView>)
    requires
        v.wf(),
    ensures
        run(v, replies).wf(),
        run(v, replies).original == v.original,
        run(v, replies).candidates == v.candidates,
    decreases replies.len(),
{
    if replies.len() > 0 {
        let w = run(v, replies.drop_last());
        let reply = replies.last();
        lemma_run(v, replies.drop_last());
        law_step_keeps_order(w, reply);
        if let (AdoptPhase::List, ReplyView::Worktrees(known)) = (w.phase, reply) {
            lemma_settle(AdoptionView { known: known, ..w }, 0);
        }
        if let (AdoptPhase::Add, ReplyView::Done) = (w.phase, reply) {
            lemma_settle(
                AdoptionView {
                    known: w.known.push((w.candidate().branch, w.path)),
                    paths: w.paths.push(w.path),
                    created_paths: w.created_paths.push(w.path),
                    ..w
                },
                w.at + 1,
            );
        }
    }
}

/// A transaction that fails leaves the stack as it was, whatever was replied, and has asked for
/// the removal of every worktree and branch that it made, latest first.
pub proof fn law_failure_restores(
    state: StackView,
    candidates: Seq<CandidateView>,
    refs: Seq<Option<Seq<char>>>,
    no_worktrees: bool,
    abort: bool,
    replies: Seq<ReplyView>,
)
    requires
        refs.len() == candidates.len(),
        ({
            let end = run(
                fresh_adoption(state, candidates, refs, no_worktrees, abort),
                replies,
            );
            end.phase == AdoptPhase::Failed || end.phase == AdoptPhase::Undo
        }),
    ensures
        ({
            let end = run(
                fresh_adoption(state, candidates, refs, no_worktrees, abort),
                replies,
            );
            &&& end.state == state
            &&& end.error is Some
            &&& end.removals == removals_for(end.created_paths, end.created)
            &&& end.phase == AdoptPhase::Failed ==> end.removed == end.removals.len()
        }),
{
    lemma_run(fresh_adoption(state, candidates, refs, no_worktrees, abort), replies);
}

/// A transaction that finishes has counted every candidate as adopted or skipped, and has a
/// worktree for each unless none were wanted.
pub proof fn law_success_covers_all(
    state: StackView,
    candidates: Seq<CandidateView>,
    refs: Seq<Option<Seq<char>>>,
    no_worktrees: bool,
    abort: bool,
    replies: Seq<ReplyView>,
)
    requires
        refs.len() == candidates.len(),
        run(
            fresh_adoption(state, candidates, refs, no_worktrees, abort),
            replies,
        ).phase == AdoptPhase::Finished,
    ensures
        ({
            let end = run(
                fresh_adoption(state, candidates, refs, no_worktrees, abort),
                replies,
            );
            &&& end.adopted + end.skipped == candidates.len()
            &&& end.paths.len() == if no_worktrees {
                0
            } else {
                candidates.len()
            }
        }),
{
    lemma_run(fresh_adoption(state, candidates, refs, no_worktrees, abort), replies);
    lemma_settings(fresh_adoption(state, candidates, refs, no_worktrees, abort), replies);
}

proof fn lemma_settings(v: AdoptionView, replies: Seq<ReplyView>)
    requires
        v.wf(),
    ensures
        run(v, replies).no_worktrees == v.no_worktrees,
    decreases replies.len(),
{
    if replies.len() > 0 {
        let w = run(v, replies.drop_last());
        let reply = replies.last();
        lemma_settings(v, replies.drop_last());
        lemma_run(v, replies.drop_last());
        if let (AdoptPhase::List, ReplyView::Worktrees(known)) = (w.phase, reply) {
            lemma_settle(AdoptionView { known: known, ..w }, 0);
        }
        if let (AdoptPhase::Add, ReplyView::Done) = (w.phase, reply) {
            lemma_settle(
                AdoptionView {
                    known: w.known.push((w.candidate().branch, w.path)),
                    paths: w.paths.push(w.path),
                    created_paths: w.created_paths.push(w.path),
                    ..w
                },
                w.at + 1,
            );
        }
    }
}

impl AdoptionView {
    /// Whether the stack to be saved differs from the original only by newly recorded
    /// candidates and pull requests recorded for candidates that had none.
    pub open spec fn only_adds(self) -> bool {
        &&& self.state.with_branches(self.original.branches) == self.original
        &&& forall|b: Seq<char>| #[trigger]
            self.original.branches.contains_key(b) ==> {
                &&& self.state.branches.contains_key(b)
                &&& self.state.branches[b] == (MetaView {
                    pr_number: self.state.branches[b].pr_number,
                    ..self.original.branches[b]
                })
                &&& self.original.branches[b].pr_number is Some ==> self.state.branches[b]
                    == self.original.branches[b]
            }
        &&& forall|b: Seq<char>|
            #![trigger self.state.branches.contains_key(b)]
            self.state.branches.contains_key(b) && !branches_of(self.candidates).contains(b)
                ==> self.original.branches.contains_key(b) && self.state.branches[b]
                == self.original.branches[b]
    }
}

proof fn lemma_branched_only_adds(v: AdoptionView)
    requires
        v.only_adds(),
        v.at < v.candidates.len(),
        branches_of(v.candidates).contains(v.candidate().branch),
    ensures
        v.branched().only_adds(),
{
    let w = v.with_pr();
    if v.state.managed(v.candidate().branch) {
        assert(w.only_adds()) by {
            assert(w.state.with_branches(w.original.branches) =~= v.state.with_branches(
                v.original.branches,
            ));
        }
        assert(w.skip().only_adds());
    }
}

proof fn lemma_adopt_only_adds(v: AdoptionView, head: Seq<char>)
    requires
        v.only_adds(),
        v.at < v.candidates.len(),
        !v.state.managed(v.candidate().branch),
        branches_of(v.candidates).contains(v.candidate().branch),
    ensures
        v.adopt(head).only_adds(),
{
    let w = v.adopt(head);
    assert(w.state.with_branches(w.original.branches) =~= v.state.with_branches(
        v.original.branches,
    ));
}

proof fn lemma_step_only_adds(v: AdoptionView, reply: ReplyView)
    requires
        v.wf(),
        v.only_adds(),
    ensures
        v.step(reply).only_adds(),
{
    if let (AdoptPhase::List, ReplyView::Worktrees(known)) = (v.phase, reply) {
        lemma_settle(AdoptionView { known: known, ..v }, 0);
    }
    if let (AdoptPhase::Add, ReplyView::Done) = (v.phase, reply) {
        lemma_settle(
            AdoptionView {
                known: v.known.push((v.candidate().branch, v.path)),
                paths: v.paths.push(v.path),
                created_paths: v.created_paths.push(v.path),
                ..v
            },
            v.at + 1,
        );
    }
    if v.at < v.candidates.len() {
        assert(branches_of(v.candidates)[v.at] == v.candidate().branch);
        assert(branches_of(v.candidates).contains(v.candidate().branch));
    }
    match (v.phase, reply) {
        (AdoptPhase::Check, ReplyView::Flag(exists)) => {
            lemma_branched_only_adds(AdoptionView { existed: true, ..v });
        },
        (AdoptPhase::Create, ReplyView::Done) => {
            lemma_branched_only_adds(
                AdoptionView { created: v.created.push(v.candidate().branch), ..v },
            );
        },
        (AdoptPhase::Base, ReplyView::Text(head)) => {
            lemma_adopt_only_adds(v, head);
        },
        _ => {},
    }
}

/// Whatever was replied, the stack to be saved differs from the original only by newly recorded
/// candidates and by pull requests recorded for candidates that had none: no other branch
/// changes, and no recorded branch gets another parent or parent commit.
pub proof fn law_adoption_only_adds(
    state: StackView,
    candidates: Seq<CandidateView>,
    refs: Seq<Option<Seq<char>>>,
    no_worktrees: bool,
    abort: bool,
    replies: Seq<ReplyView>,
)
    requires
        refs.len() == candidates.len(),
    ensures
        run(
            fresh_adoption(state, candidates, refs, no_worktrees, abort),
            replies,
        ).only_adds(),
        run(
            fresh_adoption(state, candidates, refs, no_worktrees, abort),
            replies,
        ).original == state,
    decreases replies.len(),
{
    let start = fresh_adoption(state, candidates, refs, no_worktrees, abort);
    lemma_run(start, replies);
    if replies.len() > 0 {
        law_adoption_only_adds(
            state,
            candidates,
            refs,
            no_worktrees,
            abort,
            replies.drop_last(),
        );
        lemma_run(start, replies.drop_last());
        lemma_step_only_adds(run(start, replies.drop_last()), replies.last());
    }
}

/// An adopted branch is recorded on the candidate's base, at the merge base that git gave, with
/// the candidate's pull request; no other branch changes.
pub proof fn law_adopted_branch_stands_on_its_base(
    v: AdoptionView,
    head: Seq<char>,
    k: Seq<char>,
)
    requires
        v.wf(),
        v.phase is Base,
        head.len() > 0,
    ensures
        ({
            let c = v.candidates[v.at];
            let w = v.step(ReplyView::Text(head));
            let meta = w.state.branches[c.branch];
            &&& w.state.branches.contains_key(c.branch)
            &&& meta.parent == c.base
            &&& meta.parent_head == head
            &&& meta.pr_number == c.pr_number
            &&& meta.scope is None
            &&& w.adopted == v.adopted + 1
            &&& w.at == v.at + 1
            &&& k != c.branch ==> (w.state.branches.contains_key(k) <==> v.state.branches.contains_key(
                k,
            ))
            &&& k != c.branch && v.state.branches.contains_key(k) ==> w.state.branches[k]
                == v.state.branches[k]
        }),
{
}

/// A branch that is recorded already keeps its parent, and gets the candidate's pull request only
/// where it had none; it counts as skipped.
pub proof fn law_recorded_candidate_keeps_its_place(v: AdoptionView)
    requires
        v.wf(),
        v.phase is Check,
        v.state.branches.contains_key(v.candidates[v.at].branch),
    ensures
        ({
            let c = v.candidates[v.at];
            let m = v.state.branches[c.branch];
            let w = v.step(ReplyView::Flag(true));
            &&& w.state.branches[c.branch].parent == m.parent
            &&& w.state.branches[c.branch].parent_head == m.parent_head
            &&& w.state.branches[c.branch].pr_number == (if m.pr_number is None {
                c.pr_number
            } else {
                m.pr_number
            })
            &&& w.skipped == v.skipped + 1
            &&& w.adopted == v.adopted
            &&& w.at == v.at + 1
        }),
{
}

/// A candidate that git does not have is made at the ref fetched for it, and only it is; without
/// one the adoption fails. What git has is not made.
pub proof fn law_missing_candidate_is_made_at_its_ref(v: AdoptionView)
    requires
        v.wf(),
        v.phase is Check,
    ensures
        v.refs[v.at] matches Some(at) ==> ({
            let w = v.step(ReplyView::Flag(false));
            &&& w.phase is Create
            &&& w.state == v.state
            &&& w.action() == (AdoptActionView::CreateBranch {
                branch: v.candidates[v.at].branch,
                at,
            })
            &&& w.step(ReplyView::Done).created == v.created.push(v.candidates[v.at].branch)
        }),
        v.refs[v.at] is None ==> v.step(ReplyView::Flag(false)).error is Some && v.step(
            ReplyView::Flag(false),
        ).state == v.original,
        v.step(ReplyView::Flag(true)).created == v.created,
        v.phase is Check ==> v.action() == AdoptActionView::CheckBranch(v.candidates[v.at].branch),
{
}

/// A branch whose base cannot be found ends the adoption where that was asked for; otherwise it is
/// skipped, and dropped again where it was made here.
pub proof fn law_baseless_candidate_is_not_adopted(v: AdoptionView, text: Seq<char>)
    requires
        v.wf(),
        v.phase is Base,
    ensures
        v.abort ==> v.step(ReplyView::Failed(text)).error is Some && v.step(
            ReplyView::Failed(text),
        ).state == v.original,
        !v.abort ==> v.step(ReplyView::Failed(text)).state == v.state && v.step(
            ReplyView::Failed(text),
        ).error == v.error,
        !v.abort && v.existed ==> v.step(ReplyView::Failed(text)).skipped == v.skipped + 1,
        !v.abort && !v.existed ==> v.step(ReplyView::Failed(text)).phase is Drop,
        v.action() == (AdoptActionView::MergeBase {
            branch: v.candidates[v.at].branch,
            parent: v.candidates[v.at].base,
        }),
{
}

/// What is taken back is exactly what was made: all worktrees, the last first, and then all
/// branches, the last first.
pub proof fn law_undoing_goes_backwards(paths: Seq<Seq<char>>, branches: Seq<Seq<char>>)
    ensures
        ({
            let r = removals_for(paths, branches);
            &&& r.len() == paths.len() + branches.len()
            &&& forall|i: int|
                #![trigger paths[i]]
                0 <= i < paths.len() ==> r[paths.len() - 1 - i] == RemovalView::Worktree(paths[i])
            &&& forall|i: int|
                #![trigger branches[i]]
                0 <= i < branches.len() ==> r[paths.len() + branches.len() - 1 - i]
                    == RemovalView::Branch(branches[i])
        }),
{
}

/// Candidates that have a worktree keep it, in their order; the first that has none gets one.
pub proof fn law_worktrees_are_reused(v: AdoptionView, i: int)
    requires
        0 <= i <= v.candidates.len(),
    ensures
        ({
            let w = v.settle(i);
            &&& i <= w.at <= v.candidates.len()
            &&& w.paths.len() == v.paths.len() + (w.at - i)
            &&& w.paths.take(v.paths.len() as int) == v.paths
            &&& forall|j: int|
                i <= j < w.at ==> path_of(v.known, (#[trigger] v.candidates[j]).branch) == Some(
                    w.paths[v.paths.len() + (j - i)],
                )
            &&& w.at < v.candidates.len() ==> w.phase is Path && path_of(
                v.known,
                v.candidates[w.at].branch,
            ) is None
            &&& w.at == v.candidates.len() ==> w.phase is Save
            &&& w.created_paths == v.created_paths
            &&& w.state == v.state
        }),
    decreases v.candidates.len() - i,
{
    assert(v.paths.take(v.paths.len() as int) =~= v.paths);
    if i < v.candidates.len() {
        if let Some(p) = path_of(v.known, v.candidates[i].branch) {
            let u = AdoptionView { paths: v.paths.push(p), ..v };
            law_worktrees_are_reused(u, i + 1);
            let w = u.settle(i + 1);
            assert(w.paths.take(v.paths.len() as int) =~= v.paths) by {
                assert forall|j: int| 0 <= j < v.paths.len() implies w.paths[j] == v.paths[j] by {
                    assert(w.paths.take(u.paths.len() as int)[j] == u.paths[j]);
                }
            }
            assert(w.paths.take(u.paths.len() as int)[v.paths.len() as int] == p);
            assert forall|j: int| i <= j < w.at implies path_of(
                v.known,
                (#[trigger] v.candidates[j]).branch,
            ) == Some(w.paths[v.paths.len() + (j - i)]) by {
                if j > i {
                    assert(path_of(u.known, u.candidates[j].branch) == Some(
                        w.paths[u.paths.len() + (j - (i + 1))],
                    ));
                }
            }
        }
    }
}

/// Each candidate without a worktree gets one of its own, which is remembered as made here; the
/// record is saved after all of them.
pub proof fn law_worktrees_are_made_one_by_one(
    v: AdoptionView,
    known: Seq<(Seq<char>, Seq<char>)>,
    p: Seq<char>,
)
    requires
        v.wf(),
    ensures
        v.phase is List ==> v.step(ReplyView::Worktrees(known)) == (AdoptionView {
            known,
            ..v
        }).settle(0),
        v.phase is Path ==> ({
            let w = v.step(ReplyView::Text(p));
            &&& w.phase is Add
            &&& w.path == p
            &&& w.action() == (AdoptActionView::AddWorktree {
                path: p,
                branch: v.candidates[v.at].branch,
            })
            &&& w.paths == v.paths
        }),
        v.phase is Add ==> ({
            let w = v.step(ReplyView::Done);
            &&& w.created_paths == v.created_paths.push(v.path)
            &&& w.paths.len() > v.paths.len()
            &&& w.paths[v.paths.len() as int] == v.path
            &&& w.at > v.at
            &&& w.state == v.state
        }),
        v.phase is Save ==> v.step(ReplyView::Done).phase is Finished,
        v.phase is Path ==> v.action() == AdoptActionView::WorktreePath(v.candidates[v.at].branch),
        v.phase is Drop ==> v.action() == AdoptActionView::DeleteBranch(v.candidates[v.at].branch),
        v.phase is List ==> v.action() is ListWorktrees,
        v.phase is Save ==> v.action() is Save,
        v.phase is Finished ==> v.action() is Finished,
        v.phase is Failed ==> v.action() is Failed,
{
    if v.phase is Add {
        let u = AdoptionView {
            known: v.known.push((v.candidates[v.at].branch, v.path)),
            paths: v.paths.push(v.path),
            created_paths: v.created_paths.push(v.path),
            ..v
        };
        law_worktrees_are_reused(u, v.at + 1);
        let w = u.settle(v.at + 1);
        assert(w.paths.take(u.paths.len() as int)[v.paths.len() as int] == v.path);
    }
}

/// Undoing takes each thing in turn, and ends after the last.
pub proof fn law_undoing_takes_each_in_turn(v: AdoptionView)
    requires
        v.wf(),
        v.phase is Undo,
    ensures
        v.removals[v.removed] matches RemovalView::Worktree(p) ==> v.action()
            == AdoptActionView::RemoveWorktree(p),
        v.removals[v.removed] matches RemovalView::Branch(b) ==> v.action()
            == AdoptActionView::DeleteBranch(b),
        v.step(ReplyView::Done).removed == v.removed + 1,
        v.step(ReplyView::Done).removals == v.removals,
        v.step(ReplyView::Done).state == v.state,
        v.removed + 1 < v.removals.len() ==> v.step(ReplyView::Done).phase is Undo,
        v.removed + 1 == v.removals.len() ==> v.step(ReplyView::Done).phase is Failed,
{
}

/// An adoption begins with the first candidate and the record as it is; after the last candidate
/// it looks at the worktrees, or saves where none are wanted.
pub proof fn law_adoption_begins_with_the_first(
    state: StackView,
    candidates: Seq<CandidateView>,
    refs: Seq<Option<Seq<char>>>,
    no_worktrees: bool,
    abort: bool,
)
    ensures
        ({
            let v = fresh_adoption(state, candidates, refs, no_worktrees, abort);
            &&& v.state == state
            &&& v.original == state
            &&& v.candidates == candidates
            &&& v.refs == refs
            &&& v.abort == abort
            &&& v.no_worktrees == no_worktrees
            &&& v.at == 0
            &&& v.adopted == 0 && v.skipped == 0
            &&& v.created.len() == 0 && v.created_paths.len() == 0 && v.paths.len() == 0
            &&& v.error is None
            &&& candidates.len() > 0 ==> v.phase is Check
            &&& candidates.len() == 0 && no_worktrees ==> v.phase is Save
            &&& candidates.len() == 0 && !no_worktrees ==> v.phase is List
        }),
{
}

/// After each candidate the next is checked; after the last, the worktrees are looked at, or the
/// record is saved where none are wanted.
pub proof fn law_adoption_goes_candidate_by_candidate(v: AdoptionView, head: Seq<char>)
    requires
        v.wf(),
    ensures
        v.phase is Base && head.len() > 0 ==> ({
            let w = v.step(ReplyView::Text(head));
            &&& w.created == v.created
            &&& v.at + 1 < v.candidates.len() ==> w.phase is Check
            &&& v.at + 1 == v.candidates.len() && v.no_worktrees ==> w.phase is Save
            &&& v.at + 1 == v.candidates.len() && !v.no_worktrees ==> w.phase is List
        }),
        v.phase is Drop ==> ({
            let w = v.step(ReplyView::Done);
            &&& w.created == without(v.created, v.candidates[v.at].branch)
            &&& w.skipped == v.skipped + 1
            &&& w.at == v.at + 1
            &&& w.state == v.state
        }),
{
}

} // verus!
