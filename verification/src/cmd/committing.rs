//! A guarded commit: files are staged, held against the branch's scope, and only then committed.

use crate::branch_map::{BranchMeta, MetaView, ScopeMode};
use crate::cmd::mutation_guard::{
    matched_view, no_scope, out_of_scope, outside_scope, proceed_after_staging, scope_preflight,
    scope_verdict, scoped, CommitOutcome, ScopeReceiptData, ScopeView, Staging,
};
use crate::error::{error_view, ErrorView, EzError};
use crate::scope::sifted;
use crate::text::views;
use vstd::prelude::*;
use vstd::string::*;

verus! {

/// What a commit is waiting for.
#[derive(Clone, Copy, Debug, PartialEq, Eq, Structural)]
pub enum CommitPhase {
    /// The staging of files.
    Stage,
    /// Whether anything is staged.
    CheckStaged,
    /// The staged files, and which of them the branch's scope matches.
    Files,
    /// The last commit before this one.
    Head,
    /// The commit itself.
    Commit,
    /// The commit that was made.
    HeadAfter,
    /// How much it changed.
    Stat,
    /// Nothing: there is a commit, or there was nothing to commit.
    Finished,
    /// Nothing: there is no commit, or nothing can be told of it.
    Failed,
}

/// The answer to what a commit waits for.
#[derive(Debug)]
pub enum CommitReply {
    Done,
    Failed(String),
    /// Whether anything is staged.
    Staged(bool),
    Files { staged: Vec<String>, matched: Result<Vec<String>, String> },
    Text(String),
    Stat { files_changed: u64, insertions: u64, deletions: u64 },
}

/// The contents of a `Committing`.
#[verifier::ext_equal]
pub struct CommittingView {
    pub current: Seq<char>,
    pub meta: MetaView,
    pub staging: Staging,
    pub if_changed: bool,
    pub phase: CommitPhase,
    /// Whether something is staged.
    pub any_staged: bool,
    /// The staged files outside the branch's scope.
    pub outside: Seq<Seq<char>>,
    /// What the receipt says of the scope, once the staged files passed.
    pub scope: Option<ScopeView>,
    pub committed: bool,
    pub before: Seq<char>,
    pub after: Seq<char>,
    pub files_changed: u64,
    pub insertions: u64,
    pub deletions: u64,
    pub error: Option<ErrorView>,
}

/// The contents of a `CommitOutcome`.
#[verifier::ext_equal]
pub struct CommitView {
    pub current: Seq<char>,
    pub before: Seq<char>,
    pub after: Seq<char>,
    pub files_changed: u64,
    pub insertions: u64,
    pub deletions: u64,
    pub scope: ScopeView,
}

impl View for CommitOutcome {
    type V = CommitView;

    open spec fn view(&self) -> CommitView {
        CommitView {
            current: self.current@,
            before: self.before@,
            after: self.after@,
            files_changed: self.files_changed,
            insertions: self.insertions,
            deletions: self.deletions,
            scope: self.scope@,
        }
    }
}

impl CommittingView {
    pub open spec fn to(self, phase: CommitPhase) -> CommittingView {
        CommittingView { phase: phase, ..self }
    }

    pub open spec fn end(self, e: ErrorView) -> CommittingView {
        CommittingView { phase: CommitPhase::Failed, error: Some(e), ..self }
    }

    /// Holds the staged files against the branch's scope.
    pub open spec fn hold(
        self,
        staged: Seq<Seq<char>>,
        matched: Result<Seq<Seq<char>>, Seq<char>>,
    ) -> CommittingView {
        let v = CommittingView { outside: outside_scope(self.meta, staged, matched), ..self };
        match scope_verdict(self.current, self.meta, staged, matched) {
            Ok(scope) => CommittingView { scope: Some(scope), phase: CommitPhase::Head, ..v },
            Err(e) => v.end(e),
        }
    }

    /// The commit after a reply. A reply that it does not wait for changes nothing.
    pub open spec fn step(self, reply: CommitReply) -> CommittingView {
        match (self.phase, reply) {
            (CommitPhase::Stage, CommitReply::Done) => self.to(CommitPhase::CheckStaged),
            (CommitPhase::CheckStaged, CommitReply::Staged(any)) => if any {
                CommittingView { any_staged: true, phase: CommitPhase::Files, ..self }
            } else if self.if_changed {
                self.to(CommitPhase::Finished)
            } else {
                self.end(ErrorView::NothingToCommit)
            },
            (CommitPhase::Files, CommitReply::Files { staged, matched }) => self.hold(
                views(staged@),
                matched_view(matched),
            ),
            (CommitPhase::Head, CommitReply::Text(t)) => CommittingView {
                before: t@,
                phase: CommitPhase::Commit,
                ..self
            },
            (CommitPhase::Commit, CommitReply::Done) => CommittingView {
                committed: true,
                phase: CommitPhase::HeadAfter,
                ..self
            },
            (CommitPhase::HeadAfter, CommitReply::Text(t)) => CommittingView {
                after: t@,
                phase: CommitPhase::Stat,
                ..self
            },
            (CommitPhase::Stat, CommitReply::Stat { files_changed, insertions, deletions }) => {
                CommittingView {
                    files_changed,
                    insertions,
                    deletions,
                    phase: CommitPhase::Finished,
                    ..self
                }
            },
            (CommitPhase::Stage, CommitReply::Failed(t))
            | (CommitPhase::CheckStaged, CommitReply::Failed(t))
            | (CommitPhase::Files, CommitReply::Failed(t))
            | (CommitPhase::Head, CommitReply::Failed(t))
            | (CommitPhase::Commit, CommitReply::Failed(t))
            | (CommitPhase::HeadAfter, CommitReply::Failed(t)) => self.end(
                ErrorView::Other(t@),
            ),
            _ => self,
        }
    }

    /// What a commit gives: an error, nothing where there was nothing to commit, or the commit.
    pub open spec fn outcome(self) -> Result<Option<CommitView>, ErrorView> {
        match (self.error, self.scope) {
            (Some(e), _) => Err(e),
            (None, Some(scope)) => if self.committed && self.phase is Finished {
                Ok(
                    Some(
                        CommitView {
                            current: self.current,
                            before: self.before,
                            after: self.after,
                            files_changed: self.files_changed,
                            insertions: self.insertions,
                            deletions: self.deletions,
                            scope,
                        },
                    ),
                )
            } else {
                Ok(None)
            },
            (None, None) => Ok(None),
        }
    }

    /// What holds throughout a commit: nothing is committed before something is staged and the
    /// staged files passed.
    pub open spec fn wf(self) -> bool {
        &&& self.phase is Failed <==> self.error is Some
        &&& self.scope is Some ==> self.any_staged
        &&& self.committed ==> self.scope is Some
        &&& match self.phase {
            CommitPhase::Stage | CommitPhase::CheckStaged => !self.any_staged && !self.committed,
            CommitPhase::Files => self.any_staged && self.scope is None && !self.committed,
            CommitPhase::Head | CommitPhase::Commit => self.scope is Some && !self.committed,
            CommitPhase::HeadAfter | CommitPhase::Stat => self.committed,
            CommitPhase::Finished => self.committed || (!self.any_staged && self.if_changed),
            CommitPhase::Failed => true,
        }
    }
}

/// Every reply keeps what holds throughout a commit.
pub proof fn law_commit_keeps_order(v: CommittingView, reply: CommitReply)
    requires
        v.wf(),
    ensures
        v.step(reply).wf(),
{
}

/// A commit is asked for only once something is staged and the staged files passed the branch's
/// scope; only the answer that something is staged, and a verdict that lets the files pass, lead
/// there.
pub proof fn law_commit_comes_last(v: CommittingView, reply: CommitReply)
    requires
        v.wf(),
    ensures
        v.phase is Commit ==> v.any_staged && v.scope is Some && !v.committed,
        v.step(reply).committed && !v.committed ==> v.phase is Commit && reply is Done,
        v.step(reply).any_staged && !v.any_staged ==> reply == CommitReply::Staged(true),
        v.step(reply).scope is Some && v.scope is None ==> (
        reply matches CommitReply::Files { staged, matched } && scope_verdict(
            v.current,
            v.meta,
            views(staged@),
            matched_view(matched),
        ) == Ok::<ScopeView, ErrorView>(v.step(reply).scope->0)),
{
}

/// A commit that is refused or passed over before it is asked for is none: the branch stays as it
/// is.
pub proof fn law_refused_commit_changes_nothing(v: CommittingView, reply: CommitReply)
    requires
        v.wf(),
        v.phase is Stage || v.phase is CheckStaged || v.phase is Files || v.phase is Head,
    ensures
        !v.step(reply).committed,
{
}

/// With nothing staged, a commit is passed over where that was asked for, and refused otherwise.
pub proof fn law_nothing_staged(v: CommittingView)
    requires
        v.wf(),
        v.phase is CheckStaged,
    ensures
        ({
            let w = v.step(CommitReply::Staged(false));
            &&& !w.committed
            &&& w.outcome() == if v.if_changed {
                Ok::<Option<CommitView>, ErrorView>(None)
            } else {
                Err(ErrorView::NothingToCommit)
            }
        }),
{
}

/// Staged files outside a strict scope refuse the commit.
pub proof fn law_strict_scope_refuses(
    v: CommittingView,
    staged: Vec<String>,
    matched: Result<Vec<String>, String>,
)
    requires
        v.wf(),
        v.phase is Files,
        v.meta.effective_scope_mode() == ScopeMode::Strict,
        outside_scope(v.meta, views(staged@), matched_view(matched)).len() > 0,
    ensures
        ({
            let w = v.step(CommitReply::Files { staged, matched });
            &&& w.outcome() == Err::<Option<CommitView>, ErrorView>(
                ErrorView::UserMessage(
                    "staged files are outside the scope for `"@ + v.current + "`"@,
                ),
            )
            &&& !w.committed
        }),
{
}

/// A commit whose files pass, and which git makes, gives the commits before and after, the
/// numbers that git told, and of the scope: nothing where the branch has none, else its mode and
/// exactly the staged files outside it.
pub proof fn law_commit_gives_its_outcome(
    v: CommittingView,
    staged: Vec<String>,
    matched: Result<Vec<String>, String>,
    before: String,
    after: String,
    files_changed: u64,
    insertions: u64,
    deletions: u64,
)
    requires
        v.wf(),
        v.phase is CheckStaged,
        scope_verdict(v.current, v.meta, views(staged@), matched_view(matched)) is Ok,
    ensures
        ({
            let w = v.step(CommitReply::Staged(true)).step(
                CommitReply::Files { staged, matched },
            ).step(CommitReply::Text(before)).step(CommitReply::Done).step(
                CommitReply::Text(after),
            ).step(CommitReply::Stat { files_changed, insertions, deletions });
            w.outcome() == Ok::<Option<CommitView>, ErrorView>(
                Some(
                    CommitView {
                        current: v.current,
                        before: before@,
                        after: after@,
                        files_changed,
                        insertions,
                        deletions,
                        scope: match (v.meta.scope, matched_view(matched)) {
                            (Some(patterns), Ok(m)) => if patterns.len() > 0 {
                                scoped(
                                    v.meta.effective_scope_mode(),
                                    sifted(views(staged@), m, false),
                                )
                            } else {
                                no_scope()
                            },
                            _ => no_scope(),
                        },
                    },
                ),
            )
        }),
{
}

#[derive(Debug)]
struct CommittingData {
    current: String,
    meta: BranchMeta,
    staging: Staging,
    if_changed: bool,
    phase: CommitPhase,
    any_staged: bool,
    outside: Vec<String>,
    scope: Option<ScopeReceiptData>,
    committed: bool,
    before: String,
    after: String,
    files_changed: u64,
    insertions: u64,
    deletions: u64,
    error: Option<EzError>,
}

impl View for CommittingData {
    type V = CommittingView;

    closed spec fn view(&self) -> CommittingView {
        CommittingView {
            current: self.current@,
            meta: self.meta@,
            staging: self.staging,
            if_changed: self.if_changed,
            phase: self.phase,
            any_staged: self.any_staged,
            outside: views(self.outside@),
            scope: match self.scope {
                Some(d) => Some(d@),
                None => None,
            },
            committed: self.committed,
            before: self.before@,
            after: self.after@,
            files_changed: self.files_changed,
            insertions: self.insertions,
            deletions: self.deletions,
            error: error_view(self.error),
        }
    }
}

impl CommittingData {
    fn end(&mut self, e: EzError)
        ensures
            final(self)@ == old(self)@.end(e@),
    {
        self.phase = CommitPhase::Failed;
        self.error = Some(e);
    }

    fn step(&mut self, reply: CommitReply)
        ensures
            final(self)@ == old(self)@.step(reply),
    {
        match (self.phase, reply) {
            (CommitPhase::Stage, CommitReply::Done) => {
                self.phase = CommitPhase::CheckStaged;
            },
            (CommitPhase::CheckStaged, CommitReply::Staged(any)) => {
                match proceed_after_staging(self.if_changed, any) {
                    Ok(go) => if go {
                        self.any_staged = true;
                        self.phase = CommitPhase::Files;
                    } else {
                        self.phase = CommitPhase::Finished;
                    },
                    Err(e) => self.end(e),
                }
            },
            (CommitPhase::Files, CommitReply::Files { staged, matched }) => {
                self.outside = out_of_scope(&self.meta, &staged, &matched);
                match scope_preflight(&self.current, &self.meta, &staged, matched) {
                    Ok(d) => {
                        self.scope = Some(d);
                        self.phase = CommitPhase::Head;
                    },
                    Err(e) => self.end(e),
                }
            },
            (CommitPhase::Head, CommitReply::Text(t)) => {
                self.before = t;
                self.phase = CommitPhase::Commit;
            },
            (CommitPhase::Commit, CommitReply::Done) => {
                self.committed = true;
                self.phase = CommitPhase::HeadAfter;
            },
            (CommitPhase::HeadAfter, CommitReply::Text(t)) => {
                self.after = t;
                self.phase = CommitPhase::Stat;
            },
            (CommitPhase::Stat, CommitReply::Stat { files_changed, insertions, deletions }) => {
                self.files_changed = files_changed;
                self.insertions = insertions;
                self.deletions = deletions;
                self.phase = CommitPhase::Finished;
            },
            (CommitPhase::Stage, CommitReply::Failed(t)) => self.end(EzError::Other(t)),
            (CommitPhase::CheckStaged, CommitReply::Failed(t)) => self.end(EzError::Other(t)),
            (CommitPhase::Files, CommitReply::Failed(t)) => self.end(EzError::Other(t)),
            (CommitPhase::Head, CommitReply::Failed(t)) => self.end(EzError::Other(t)),
            (CommitPhase::Commit, CommitReply::Failed(t)) => self.end(EzError::Other(t)),
            (CommitPhase::HeadAfter, CommitReply::Failed(t)) => self.end(EzError::Other(t)),
            _ => {},
        }
    }
}

/// A commit in progress.
#[derive(Debug)]
pub struct Committing {
    data: CommittingData,
}

impl View for Committing {
    type V = CommittingView;

    closed spec fn view(&self) -> CommittingView {
        self.data@
    }
}

/// A commit at its start.
pub open spec fn fresh_commit(
    current: Seq<char>,
    meta: MetaView,
    staging: Staging,
    if_changed: bool,
) -> CommittingView {
    CommittingView {
        current,
        meta,
        staging,
        if_changed,
        phase: if staging == Staging::AsIs {
            CommitPhase::CheckStaged
        } else {
            CommitPhase::Stage
        },
        any_staged: false,
        outside: Seq::empty(),
        scope: None,
        committed: false,
        before: Seq::empty(),
        after: Seq::empty(),
        files_changed: 0,
        insertions: 0,
        deletions: 0,
        error: None,
    }
}

impl Committing {
    #[verifier::type_invariant]
    spec fn in_order(self) -> bool {
        self.data@.wf()
    }

    /// Starts a commit on a branch that may be committed on.
    pub fn begin(current: &str, meta: &BranchMeta, staging: Staging, if_changed: bool) -> (r:
        Committing)
        ensures
            r@ == fresh_commit(current@, meta@, staging, if_changed),
    {
        let phase: CommitPhase = match staging {
            Staging::AsIs => CommitPhase::CheckStaged,
            _ => CommitPhase::Stage,
        };
        let data = CommittingData {
            current: current.to_owned(),
            meta: meta.copy(),
            staging,
            if_changed,
            phase,
            any_staged: false,
            outside: Vec::new(),
            scope: None,
            committed: false,
            before: String::new(),
            after: String::new(),
            files_changed: 0,
            insertions: 0,
            deletions: 0,
            error: None,
        };
        assert(views(data.outside@) =~= Seq::<Seq<char>>::empty());
        Committing { data }
    }

    /// The commit after a reply to what it waits for.
    pub fn step(self, reply: CommitReply) -> (r: Committing)
        ensures
            r@ == self@.step(reply),
    {
        proof {
            use_type_invariant(&self);
            law_commit_keeps_order(self@, reply);
        }
        let mut data = self.data;
        data.step(reply);
        Committing { data }
    }

    /// What the commit waits for.
    pub fn phase(&self) -> (r: CommitPhase)
        ensures
            r == self@.phase,
    {
        self.data.phase
    }

    /// What is staged.
    pub fn staging(&self) -> (r: Staging)
        ensures
            r == self@.staging,
    {
        self.data.staging
    }

    /// The patterns of the branch's scope, if it has one.
    pub fn patterns(&self) -> (r: Option<&Vec<String>>)
        ensures
            match r {
                Some(p) => self@.meta.scope == Some(views(p@)),
                None => self@.meta.scope is None,
            },
    {
        match &self.data.meta.scope {
            Some(p) => Some(p),
            None => None,
        }
    }

    /// The staged files outside the branch's scope.
    pub fn outside(&self) -> (r: &Vec<String>)
        ensures
            views(r@) == self@.outside,
    {
        &self.data.outside
    }

    /// What the commit gives: an error, nothing where there was nothing to commit, or the commit.
    pub fn finish(self) -> (r: Result<Option<CommitOutcome>, EzError>)
        ensures
            match r {
                Ok(Some(o)) => self@.outcome() == Ok::<Option<CommitView>, ErrorView>(Some(o@)),
                Ok(None) => self@.outcome() == Ok::<Option<CommitView>, ErrorView>(None),
                Err(e) => self@.outcome() == Err::<Option<CommitView>, ErrorView>(e@),
            },
    {
        let d = self.data;
        if let Some(e) = d.error {
            return Err(e);
        }
        let finished: bool = match d.phase {
            CommitPhase::Finished => true,
            _ => false,
        };
        match d.scope {
            Some(scope) => if d.committed && finished {
                Ok(
                    Some(
                        CommitOutcome {
                            current: d.current,
                            before: d.before,
                            after: d.after,
                            files_changed: d.files_changed,
                            insertions: d.insertions,
                            deletions: d.deletions,
                            scope,
                        },
                    ),
                )
            } else {
                Ok(None)
            },
            None => Ok(None),
        }
    }
}

/// A staged file that git did not match with the branch's strict scope refuses the commit, and no
/// commit is made.
pub proof fn law_unmatched_file_refuses_commit(
    v: CommittingView,
    staged: Vec<String>,
    matched: Vec<String>,
    f: Seq<char>,
)
    requires
        v.wf(),
        v.phase is Files,
        v.meta.scope matches Some(patterns) && patterns.len() > 0,
        v.meta.scope_mode == Some(ScopeMode::Strict),
        views(staged@).contains(f),
        !views(matched@).contains(f),
    ensures
        ({
            let w = v.step(CommitReply::Files { staged, matched: Ok(matched) });
            &&& w.phase is Failed
            &&& !w.committed
            &&& w.outcome() is Err
        }),
{
    crate::cmd::mutation_guard::law_strict_scope_passes_matched_files_only(
        v.current,
        v.meta,
        views(staged@),
        views(matched@),
    );
}

/// A commit stages first unless told to take what is staged, and tells the commit before it and
/// the one after it.
pub proof fn law_commit_tells_both_commits(
    current: Seq<char>,
    meta: MetaView,
    staging: Staging,
    if_changed: bool,
    v: CommittingView,
    t: String,
)
    ensures
        fresh_commit(current, meta, staging, if_changed).phase is CheckStaged <==> staging
            == Staging::AsIs,
        fresh_commit(current, meta, staging, if_changed).phase is Stage <==> staging
            != Staging::AsIs,
        !fresh_commit(current, meta, staging, if_changed).any_staged,
        !fresh_commit(current, meta, staging, if_changed).committed,
        fresh_commit(current, meta, staging, if_changed).scope is None,
        fresh_commit(current, meta, staging, if_changed).error is None,
        fresh_commit(current, meta, staging, if_changed).current == current,
        fresh_commit(current, meta, staging, if_changed).if_changed == if_changed,
        v.phase is Stage ==> v.step(CommitReply::Done).phase is CheckStaged,
        v.phase is CheckStaged ==> v.step(CommitReply::Staged(true)).phase is Files,
        v.phase is Head ==> v.step(CommitReply::Text(t)).before == t@ && v.step(
            CommitReply::Text(t),
        ).phase is Commit && v.step(CommitReply::Text(t)).after == v.after,
        v.phase is HeadAfter ==> v.step(CommitReply::Text(t)).after == t@ && v.step(
            CommitReply::Text(t),
        ).before == v.before && v.step(CommitReply::Text(t)).phase is Stat,
{
}

} // verus!
