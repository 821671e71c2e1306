//! Creating a branch on top of the stack.

use crate::branch_map::{copy_opt_all, opt_views, ScopeMode};
use crate::cmd::mutation_guard::{mode_name, scope_mode_str, StageMode};
use crate::error::{ErrorView, EzError};
use crate::git::{Reply, ReplyView};
use crate::json::{no_fields, Json, JsonObject, JsonView};
use crate::stack::{fresh_meta, StackState, StackView};
use crate::text::{holds, opt_view, prefix, short, trim, trimmed, views};
use vstd::prelude::*;
use vstd::string::*;

verus! {

/// The patterns without white space around them, each once; empty ones do not count.
pub open spec fn tidy(s: Seq<Seq<char>>) -> Seq<Seq<char>>
    decreases s.len(),
{
    if s.len() == 0 {
        Seq::empty()
    } else {
        let low = tidy(s.drop_last());
        let t = trimmed(s.last());
        if t.len() == 0 || low.contains(t) {
            low
        } else {
            low.push(t)
        }
    }
}

/// The scope that patterns give, if any is left of them.
pub fn normalize_scope_patterns(patterns: &Vec<String>) -> (r: Option<Vec<String>>)
    ensures
        opt_views(r) == if tidy(views(patterns@)).len() == 0 {
            None
        } else {
            Some(tidy(views(patterns@)))
        },
{
    let ghost all = views(patterns@);
    let mut out: Vec<String> = Vec::new();
    let mut i: usize = 0;
    assert(all.take(0) =~= Seq::<Seq<char>>::empty());
    assert(views(out@) =~= Seq::<Seq<char>>::empty());
    while i < patterns.len()
        invariant
            i <= patterns.len(),
            all == views(patterns@),
            views(out@) == tidy(all.take(i as int)),
        decreases patterns.len() - i,
    {
        let ghost held = views(out@);
        assert(all.take(i + 1).drop_last() =~= all.take(i as int));
        assert(all.take(i + 1).last() == patterns@[i as int]@);
        let t: &str = trim(&patterns[i]);
        if !t.is_empty() && !holds(&out, t) {
            out.push(t.to_owned());
            assert(views(out@) =~= held.push(t@));
        }
        i += 1;
    }
    assert(all.take(patterns.len() as int) =~= all);
    assert(views(out@).len() == out.len());
    if out.len() == 0 {
        None
    } else {
        Some(out)
    }
}

/// The hint where a new branch's files are.
pub fn worktree_edit_hint(wt_path: &str) -> (r: String)
    ensures
        r@ == "Edit files under `"@ + wt_path@
            + "`. This branch lives in a linked worktree, not the main repo checkout."@,
{
    String::from_str("Edit files under `").concat(wt_path).concat(
        "`. This branch lives in a linked worktree, not the main repo checkout.",
    )
}

/// What a new branch is stacked on: the branch named, else on the trunk the configured default
/// if that is recorded, else the current branch.
pub open spec fn parent_for(
    s: StackView,
    current: Seq<char>,
    from: Option<Seq<char>>,
) -> Result<Seq<char>, ErrorView> {
    match from {
        Some(base) => if base == s.trunk || s.managed(base) {
            Ok(base)
        } else {
            Err(
                ErrorView::UserMessage(
                    "branch `"@ + base
                        + "` is not tracked by ez — use trunk or a managed branch with --from"@,
                ),
            )
        },
        None => if current == s.trunk {
            match s.default_from {
                Some(d) => if d == s.trunk || s.managed(d) {
                    Ok(d)
                } else {
                    Ok(current)
                },
                None => Ok(current),
            }
        } else if s.managed(current) {
            Ok(current)
        } else {
            Err(
                ErrorView::UserMessage(
                    "current branch `"@ + current
                        + "` is not tracked by ez — switch to a managed branch or trunk first"@,
                ),
            )
        },
    }
}

/// What a new branch is stacked on.
pub fn resolve_create_parent(state: &StackState, current: &str, from: &Option<String>) -> (r: Result<
    String,
    EzError,
>)
    ensures
        match r {
            Ok(p) => parent_for(state@, current@, opt_view(*from)) == Ok::<
                Seq<char>,
                ErrorView,
            >(p@),
            Err(e) => parent_for(state@, current@, opt_view(*from)) == Err::<
                Seq<char>,
                ErrorView,
            >(e@),
        },
{
    match from {
        Some(base) => {
            if !state.is_trunk(base) && !state.is_managed(base) {
                return Err(
                    EzError::UserMessage(
                        String::from_str("branch `").concat(base).concat(
                            "` is not tracked by ez — use trunk or a managed branch with --from",
                        ),
                    ),
                );
            }
            Ok(base.clone())
        },
        None => {
            if state.is_trunk(current) {
                match &state.default_from {
                    Some(d) => if state.is_trunk(d) || state.is_managed(d) {
                        Ok(d.clone())
                    } else {
                        Ok(current.to_owned())
                    },
                    None => Ok(current.to_owned()),
                }
            } else {
                if !state.is_managed(current) {
                    return Err(
                        EzError::UserMessage(
                            String::from_str("current branch `").concat(current).concat(
                                "` is not tracked by ez — switch to a managed branch or trunk first",
                            ),
                        ),
                    );
                }
                Ok(current.to_owned())
            }
        },
    }
}

/// What the creation of a branch is waiting for.
#[derive(Clone, Copy, Debug, PartialEq, Eq, Structural)]
pub enum CreatePhase {
    /// The tip of the parent.
    Head,
    /// Changes being staged.
    Stage,
    /// Whether anything is staged.
    CheckStaged,
    /// The path for the worktree.
    Path,
    /// The changes being put aside.
    Stash,
    /// The branch being made.
    Create,
    /// The changes being taken back, since the branch could not be made.
    Unstash,
    /// The worktree being made.
    AddWorktree,
    /// The branch being deleted, since its worktree could not be made.
    DropBranch,
    /// The changes being moved into the worktree.
    Transfer,
    /// The stack being saved all the same, since the changes could not be moved.
    SaveAnyway,
    /// The saving of the stack.
    Save,
    /// The branch being deleted, since the stack could not be saved.
    DropUnsaved,
    /// Whether the moved changes are staged in the worktree.
    CheckMoved,
    /// Them being staged there.
    StageMoved,
    /// The commit in the worktree.
    Commit,
    Finished,
    Failed,
}

/// What was asked of a new branch.
#[derive(Debug)]
pub struct CreateRequest {
    pub name: String,
    /// Whether the changes at hand are committed on the branch.
    pub commit: bool,
    /// What is staged for that.
    pub stage: Option<StageMode>,
    pub no_worktree: bool,
    pub scope: Option<Vec<String>>,
    pub scope_mode: Option<ScopeMode>,
}

/// The contents of a `Creating`.
#[verifier::ext_equal]
pub struct CreateView {
    pub state: StackView,
    pub original: StackView,
    pub name: Seq<char>,
    pub parent: Seq<char>,
    pub commit: bool,
    pub stage: Option<StageMode>,
    pub no_worktree: bool,
    pub scope: Option<Seq<Seq<char>>>,
    pub scope_mode: Option<ScopeMode>,
    pub phase: CreatePhase,
    /// The tip of the parent, where the branch begins.
    pub head: Seq<char>,
    pub path: Seq<char>,
    pub stashed: bool,
    /// What went wrong, while it is being undone.
    pub cause: Seq<char>,
    pub error: Option<ErrorView>,
}

impl CreateView {
    pub open spec fn to(self, phase: CreatePhase) -> CreateView {
        CreateView { phase: phase, ..self }
    }

    pub open spec fn end(self, e: ErrorView) -> CreateView {
        CreateView { phase: CreatePhase::Failed, error: Some(e), ..self }
    }

    pub open spec fn back(self, phase: CreatePhase, cause: Seq<char>) -> CreateView {
        CreateView { phase: phase, cause: cause, ..self }
    }

    /// Goes on once the changes to be committed, if any, are staged.
    pub open spec fn staged(self) -> CreateView {
        if self.no_worktree {
            if self.commit {
                self.end(
                    ErrorView::UserMessage("`-m` cannot be combined with `--no-worktree`"@),
                )
            } else {
                self.to(CreatePhase::Create)
            }
        } else {
            self.to(CreatePhase::Path)
        }
    }

    /// Records the branch.
    pub open spec fn record(self) -> CreateView {
        CreateView {
            state: self.original.with_branches(
                self.original.branches.insert(
                    self.name,
                    fresh_meta(self.parent, self.head, self.scope, self.scope_mode),
                ),
            ),
            phase: if self.no_worktree {
                CreatePhase::Save
            } else {
                CreatePhase::AddWorktree
            },
            ..self
        }
    }

    /// Takes the record back, and the changes put aside, if any.
    pub open spec fn unrecord(self) -> CreateView {
        let v = CreateView { state: self.original, ..self };
        if self.stashed {
            v.to(CreatePhase::Unstash)
        } else {
            v.end(ErrorView::Other(self.cause))
        }
    }

    /// The creation after a reply before the branch is made.
    pub open spec fn step_before(self, reply: ReplyView) -> CreateView {
        match (self.phase, reply) {
            (CreatePhase::Head, ReplyView::Text(head)) => {
                let v = CreateView { head: head, ..self };
                if !self.commit {
                    v.staged()
                } else if self.stage is Some {
                    v.to(CreatePhase::Stage)
                } else {
                    v.to(CreatePhase::CheckStaged)
                }
            },
            (CreatePhase::Stage, ReplyView::Done) => self.to(CreatePhase::CheckStaged),
            (CreatePhase::CheckStaged, ReplyView::Flag(some)) => if some {
                self.staged()
            } else {
                self.end(ErrorView::NothingToCommit)
            },
            (CreatePhase::Path, ReplyView::Text(p)) => CreateView {
                path: p,
                phase: if self.commit {
                    CreatePhase::Stash
                } else {
                    CreatePhase::Create
                },
                ..self
            },
            (CreatePhase::Stash, ReplyView::Flag(did)) => CreateView {
                stashed: did,
                phase: CreatePhase::Create,
                ..self
            },
            (CreatePhase::Create, ReplyView::Done) => self.record(),
            (CreatePhase::Create, ReplyView::Failed(t)) => if self.stashed {
                self.back(CreatePhase::Unstash, t)
            } else {
                self.end(ErrorView::Other(t))
            },
            (CreatePhase::Unstash, ReplyView::Done) => self.end(ErrorView::Other(self.cause)),
            (CreatePhase::Unstash, ReplyView::Failed(_)) => self.end(
                ErrorView::Other(self.cause),
            ),
            (CreatePhase::Head, ReplyView::Failed(t))
            | (CreatePhase::Stage, ReplyView::Failed(t))
            | (CreatePhase::CheckStaged, ReplyView::Failed(t))
            | (CreatePhase::Path, ReplyView::Failed(t))
            | (CreatePhase::Stash, ReplyView::Failed(t)) => self.end(ErrorView::Other(t)),
            _ => self,
        }
    }

    /// The creation after a reply once the branch is made.
    pub open spec fn step_after(self, reply: ReplyView) -> CreateView {
        match (self.phase, reply) {
            (CreatePhase::AddWorktree, ReplyView::Done) => self.to(
                if self.stashed {
                    CreatePhase::Transfer
                } else {
                    CreatePhase::Save
                },
            ),
            (CreatePhase::AddWorktree, ReplyView::Failed(t)) => self.back(
                CreatePhase::DropBranch,
                t,
            ),
            (CreatePhase::DropBranch, ReplyView::Done) => self.unrecord(),
            (CreatePhase::DropBranch, ReplyView::Failed(_)) => self.unrecord(),
            (CreatePhase::Transfer, ReplyView::Done) => self.to(CreatePhase::Save),
            (CreatePhase::Transfer, ReplyView::Failed(t)) => self.back(CreatePhase::SaveAnyway, t),
            (CreatePhase::SaveAnyway, ReplyView::Done) => self.end(ErrorView::Other(self.cause)),
            (CreatePhase::SaveAnyway, ReplyView::Failed(_)) => self.end(
                ErrorView::Other(self.cause),
            ),
            (CreatePhase::Save, ReplyView::Done) => self.to(
                if self.commit {
                    CreatePhase::CheckMoved
                } else {
                    CreatePhase::Finished
                },
            ),
            (CreatePhase::Save, ReplyView::Failed(t)) => if self.no_worktree {
                self.back(CreatePhase::DropUnsaved, t)
            } else {
                self.end(ErrorView::Other(t))
            },
            (CreatePhase::DropUnsaved, ReplyView::Done) => self.end(ErrorView::Other(self.cause)),
            (CreatePhase::DropUnsaved, ReplyView::Failed(_)) => self.end(
                ErrorView::Other(self.cause),
            ),
            (CreatePhase::CheckMoved, ReplyView::Flag(some)) => self.to(
                if some {
                    CreatePhase::Commit
                } else {
                    CreatePhase::StageMoved
                },
            ),
            (CreatePhase::StageMoved, ReplyView::Done) => self.to(CreatePhase::Commit),
            (CreatePhase::Commit, ReplyView::Done) => self.to(CreatePhase::Finished),
            (CreatePhase::CheckMoved, ReplyView::Failed(t))
            | (CreatePhase::StageMoved, ReplyView::Failed(t))
            | (CreatePhase::Commit, ReplyView::Failed(t)) => self.end(ErrorView::Other(t)),
            _ => self,
        }
    }

    /// Whether the branch is not made yet, or is being given up.
    pub open spec fn before_branch(self) -> bool {
        self.phase is Head || self.phase is Stage || self.phase is CheckStaged || self.phase is Path
            || self.phase is Stash || self.phase is Create || self.phase is Unstash
    }

    /// The creation after a reply. A reply that it does not wait for changes nothing.
    pub open spec fn step(self, reply: ReplyView) -> CreateView {
        if self.before_branch() {
            self.step_before(reply)
        } else {
            self.step_after(reply)
        }
    }

    /// What holds throughout: the record is the original one until the branch is made, and then
    /// has the branch in it and nothing else new.
    pub open spec fn wf(self) -> bool {
        &&& self.before_branch() ==> self.state == self.original
        &&& self.state == self.original || self.state == self.original.with_branches(
            self.original.branches.insert(
                self.name,
                fresh_meta(self.parent, self.head, self.scope, self.scope_mode),
            ),
        )
        &&& self.phase is Failed ==> self.error is Some
        &&& self.stashed || self.phase is Path || self.phase is Stash ==> !self.no_worktree
    }
}

/// Every reply keeps what holds throughout: the record never gets more than the new branch, which
/// begins at the tip that its parent had at the start.
pub proof fn law_create_adds_only_the_branch(v: CreateView, reply: ReplyView)
    requires
        v.wf(),
    ensures
        v.step(reply).wf(),
        v.step(reply).original == v.original,
        !(v.phase is Head) ==> v.step(reply).head == v.head,
{
}

/// Changes that were put aside are taken back, or moved into the worktree, before the creation
/// ends.
pub proof fn law_stash_is_not_forgotten(v: CreateView, reply: ReplyView)
    requires
        v.wf(),
        v.stashed,
        v.phase is Create || v.phase is AddWorktree || v.phase is DropBranch,
    ensures
        !(v.step(reply).phase is Failed),
        !(v.step(reply).phase is Save),
        !(v.step(reply).phase is Finished),
{
}

#[derive(Debug)]
struct CreateData {
    state: StackState,
    original: StackState,
    request: CreateRequest,
    parent: String,
    phase: CreatePhase,
    head: String,
    path: String,
    stashed: bool,
    cause: String,
    error: Option<EzError>,
}

impl View for CreateData {
    type V = CreateView;

    closed spec fn view(&self) -> CreateView {
        CreateView {
            state: self.state@,
            original: self.original@,
            name: self.request.name@,
            parent: self.parent@,
            commit: self.request.commit,
            stage: self.request.stage,
            no_worktree: self.request.no_worktree,
            scope: opt_views(self.request.scope),
            scope_mode: self.request.scope_mode,
            phase: self.phase,
            head: self.head@,
            path: self.path@,
            stashed: self.stashed,
            cause: self.cause@,
            error: match self.error {
                Some(e) => Some(e@),
                None => None,
            },
        }
    }
}

impl CreateData {
    fn end(&mut self, e: EzError)
        ensures
            final(self)@ == old(self)@.end(e@),
    {
        self.phase = CreatePhase::Failed;
        self.error = Some(e);
    }

    fn end_with_cause(&mut self)
        ensures
            final(self)@ == old(self)@.end(ErrorView::Other(old(self)@.cause)),
    {
        let cause: String = self.cause.clone();
        self.end(EzError::Other(cause));
    }

    fn back(&mut self, phase: CreatePhase, cause: String)
        ensures
            final(self)@ == old(self)@.back(phase, cause@),
    {
        self.phase = phase;
        self.cause = cause;
    }

    fn staged(&mut self)
        ensures
            final(self)@ == old(self)@.staged(),
    {
        if self.request.no_worktree {
            if self.request.commit {
                self.end(
                    EzError::UserMessage(
                        String::from_str("`-m` cannot be combined with `--no-worktree`"),
                    ),
                );
            } else {
                self.phase = CreatePhase::Create;
            }
        } else {
            self.phase = CreatePhase::Path;
        }
    }

    fn record(&mut self)
        ensures
            final(self)@ == old(self)@.record(),
    {
        let mut state: StackState = self.original.copy();
        state.add_branch(
            &self.request.name,
            &self.parent,
            &self.head,
            copy_opt_all(&self.request.scope),
            self.request.scope_mode,
        );
        self.state = state;
        self.phase = if self.request.no_worktree {
            CreatePhase::Save
        } else {
            CreatePhase::AddWorktree
        };
    }

    fn unrecord(&mut self)
        ensures
            final(self)@ == old(self)@.unrecord(),
    {
        self.state = self.original.copy();
        if self.stashed {
            self.phase = CreatePhase::Unstash;
        } else {
            self.end_with_cause();
        }
    }

    fn step_before(&mut self, reply: Reply)
        ensures
            final(self)@ == old(self)@.step_before(reply@),
    {
        match (self.phase, reply) {
            (CreatePhase::Head, Reply::Text(head)) => {
                self.head = head;
                if !self.request.commit {
                    self.staged();
                } else if self.request.stage.is_some() {
                    self.phase = CreatePhase::Stage;
                } else {
                    self.phase = CreatePhase::CheckStaged;
                }
            },
            (CreatePhase::Stage, Reply::Done) => {
                self.phase = CreatePhase::CheckStaged;
            },
            (CreatePhase::CheckStaged, Reply::Flag(some)) => {
                if some {
                    self.staged();
                } else {
                    self.end(EzError::NothingToCommit);
                }
            },
            (CreatePhase::Path, Reply::Text(p)) => {
                self.path = p;
                self.phase = if self.request.commit {
                    CreatePhase::Stash
                } else {
                    CreatePhase::Create
                };
            },
            (CreatePhase::Stash, Reply::Flag(did)) => {
                self.stashed = did;
                self.phase = CreatePhase::Create;
            },
            (CreatePhase::Create, Reply::Done) => self.record(),
            (CreatePhase::Create, Reply::Failed(t)) => {
                if self.stashed {
                    self.back(CreatePhase::Unstash, t);
                } else {
                    self.end(EzError::Other(t));
                }
            },
            (CreatePhase::Unstash, Reply::Done) => self.end_with_cause(),
            (CreatePhase::Unstash, Reply::Failed(_)) => self.end_with_cause(),
            (CreatePhase::Head, Reply::Failed(t)) => self.end(EzError::Other(t)),
            (CreatePhase::Stage, Reply::Failed(t)) => self.end(EzError::Other(t)),
            (CreatePhase::CheckStaged, Reply::Failed(t)) => self.end(EzError::Other(t)),
            (CreatePhase::Path, Reply::Failed(t)) => self.end(EzError::Other(t)),
            (CreatePhase::Stash, Reply::Failed(t)) => self.end(EzError::Other(t)),
            _ => {},
        }
    }

    fn step_after(&mut self, reply: Reply)
        ensures
            final(self)@ == old(self)@.step_after(reply@),
    {
        match (self.phase, reply) {
            (CreatePhase::AddWorktree, Reply::Done) => {
                self.phase = if self.stashed {
                    CreatePhase::Transfer
                } else {
                    CreatePhase::Save
                };
            },
            (CreatePhase::AddWorktree, Reply::Failed(t)) => self.back(CreatePhase::DropBranch, t),
            (CreatePhase::DropBranch, Reply::Done) => self.unrecord(),
            (CreatePhase::DropBranch, Reply::Failed(_)) => self.unrecord(),
            (CreatePhase::Transfer, Reply::Done) => {
                self.phase = CreatePhase::Save;
            },
            (CreatePhase::Transfer, Reply::Failed(t)) => self.back(CreatePhase::SaveAnyway, t),
            (CreatePhase::SaveAnyway, Reply::Done) => self.end_with_cause(),
            (CreatePhase::SaveAnyway, Reply::Failed(_)) => self.end_with_cause(),
            (CreatePhase::Save, Reply::Done) => {
                self.phase = if self.request.commit {
                    CreatePhase::CheckMoved
                } else {
                    CreatePhase::Finished
                };
            },
            (CreatePhase::Save, Reply::Failed(t)) => {
                if self.request.no_worktree {
                    self.back(CreatePhase::DropUnsaved, t);
                } else {
                    self.end(EzError::Other(t));
                }
            },
            (CreatePhase::DropUnsaved, Reply::Done) => self.end_with_cause(),
            (CreatePhase::DropUnsaved, Reply::Failed(_)) => self.end_with_cause(),
            (CreatePhase::CheckMoved, Reply::Flag(some)) => {
                self.phase = if some {
                    CreatePhase::Commit
                } else {
                    CreatePhase::StageMoved
                };
            },
            (CreatePhase::StageMoved, Reply::Done) => {
                self.phase = CreatePhase::Commit;
            },
            (CreatePhase::Commit, Reply::Done) => {
                self.phase = CreatePhase::Finished;
            },
            (CreatePhase::CheckMoved, Reply::Failed(t)) => self.end(EzError::Other(t)),
            (CreatePhase::StageMoved, Reply::Failed(t)) => self.end(EzError::Other(t)),
            (CreatePhase::Commit, Reply::Failed(t)) => self.end(EzError::Other(t)),
            _ => {},
        }
    }
}

/// The creation of a branch in progress.
#[derive(Debug)]
pub struct Creating {
    data: CreateData,
}

impl View for Creating {
    type V = CreateView;

    closed spec fn view(&self) -> CreateView {
        self.data@
    }
}

/// The mode under which a scope is recorded: warnings, unless asked otherwise; none without a
/// scope.
pub open spec fn recorded_mode(
    scope: Option<Seq<Seq<char>>>,
    mode: Option<ScopeMode>,
) -> Option<ScopeMode> {
    match scope {
        Some(_) => match mode {
            Some(m) => Some(m),
            None => Some(ScopeMode::Warn),
        },
        None => None,
    }
}

/// The creation of a branch at its start.
pub open spec fn fresh_create(
    state: StackView,
    name: Seq<char>,
    parent: Seq<char>,
    commit: bool,
    stage: Option<StageMode>,
    no_worktree: bool,
    scope: Option<Seq<Seq<char>>>,
    mode: Option<ScopeMode>,
) -> CreateView {
    CreateView {
        state,
        original: state,
        name,
        parent,
        commit,
        stage,
        no_worktree,
        scope,
        scope_mode: recorded_mode(scope, mode),
        phase: CreatePhase::Head,
        head: Seq::empty(),
        path: Seq::empty(),
        stashed: false,
        cause: Seq::empty(),
        error: None,
    }
}

/// The receipt for a new branch whose tip is `head`; its worktree is named if it has one.
pub open spec fn create_receipt(v: CreateView, head: Seq<char>) -> JsonView {
    let base = no_fields().insert("cmd"@, JsonView::Text("create"@)).insert(
        "branch"@,
        JsonView::Text(v.name),
    ).insert("parent"@, JsonView::Text(v.parent)).insert("head"@, JsonView::Text(prefix(head, 7)));
    let placed = if v.no_worktree {
        base
    } else {
        base.insert("worktree"@, JsonView::Text(v.path))
    };
    JsonView::Object(
        placed.insert("scope_defined"@, JsonView::Bool(v.scope is Some)).insert(
            "scope_mode"@,
            match v.scope_mode {
                Some(m) => JsonView::Text(mode_name(m)),
                None => JsonView::Null,
            },
        ),
    )
}

/// Starts to create a branch, unless there is one of that name or its parent is not part of
/// the stack.
pub fn run(
    state: &StackState,
    current: &str,
    from: &Option<String>,
    branch_exists: bool,
    request: CreateRequest,
) -> (r: Result<Creating, EzError>)
    ensures
        match parent_for(state@, current@, opt_view(*from)) {
            Err(fault) => r matches Err(e) && e@ == fault,
            Ok(parent) => if branch_exists {
                r matches Err(e) && e@ == ErrorView::BranchAlreadyExists(request.name@)
            } else {
                r matches Ok(c) && c@ == fresh_create(
                    state@,
                    request.name@,
                    parent,
                    request.commit,
                    request.stage,
                    request.no_worktree,
                    opt_views(request.scope),
                    request.scope_mode,
                )
            },
        },
{
    let parent: String = match resolve_create_parent(state, current, from) {
        Ok(p) => p,
        Err(e) => {
            return Err(e);
        },
    };
    if branch_exists {
        return Err(EzError::BranchAlreadyExists(request.name));
    }
    let mut request = request;
    request.scope_mode = if request.scope.is_some() {
        match request.scope_mode {
            Some(m) => Some(m),
            None => Some(ScopeMode::Warn),
        }
    } else {
        None
    };
    let data = CreateData {
        state: state.copy(),
        original: state.copy(),
        request,
        parent,
        phase: CreatePhase::Head,
        head: String::new(),
        path: String::new(),
        stashed: false,
        cause: String::new(),
        error: None,
    };
    Ok(Creating { data })
}

impl Creating {
    #[verifier::type_invariant]
    spec fn in_order(self) -> bool {
        self.data@.wf()
    }

    /// The creation after a reply to what it waits for.
    pub fn step(self, reply: Reply) -> (r: Creating)
        ensures
            r@ == self@.step(reply@),
    {
        proof {
            use_type_invariant(&self);
            law_create_adds_only_the_branch(self@, reply@);
        }
        let mut data = self.data;
        match data.phase {
            CreatePhase::Head
            | CreatePhase::Stage
            | CreatePhase::CheckStaged
            | CreatePhase::Path
            | CreatePhase::Stash
            | CreatePhase::Create
            | CreatePhase::Unstash => data.step_before(reply),
            _ => data.step_after(reply),
        }
        Creating { data }
    }

    /// What the creation waits for.
    pub fn phase(&self) -> (r: CreatePhase)
        ensures
            r == self@.phase,
    {
        self.data.phase
    }

    /// The parent of the branch.
    pub fn parent(&self) -> (r: &String)
        ensures
            r@ == self@.parent,
    {
        &self.data.parent
    }

    /// The commit that the branch begins at.
    pub fn head(&self) -> (r: &String)
        ensures
            r@ == self@.head,
    {
        &self.data.head
    }

    /// The path of the branch's worktree.
    pub fn path(&self) -> (r: &String)
        ensures
            r@ == self@.path,
    {
        &self.data.path
    }

    /// The stack as it is to be saved.
    pub fn state(&self) -> (r: &StackState)
        ensures
            r@ == self@.state,
    {
        &self.data.state
    }

    /// Why the branch was not created, or not in full.
    pub fn error(&self) -> (r: Option<&EzError>)
        ensures
            (match r {
                Some(e) => Some(e@),
                None => None,
            }) == self@.error,
    {
        match &self.data.error {
            Some(e) => Some(e),
            None => None,
        }
    }

    /// The receipt for the branch, whose tip is `head`.
    pub fn receipt(&self, head: &str) -> (r: Json)
        ensures
            r@ == create_receipt(self@, head@),
    {
        let d: &CreateData = &self.data;
        let base: JsonObject = JsonObject::new().field("cmd", Json::text("create")).field(
            "branch",
            Json::text(&d.request.name),
        ).field("parent", Json::text(&d.parent)).field("head", Json::Text(short(head)));
        let placed: JsonObject = if d.request.no_worktree {
            base
        } else {
            base.field("worktree", Json::text(&d.path))
        };
        let mode: Json = match d.request.scope_mode {
            Some(m) => Json::text(scope_mode_str(m)),
            None => Json::Null,
        };
        placed.field("scope_defined", Json::Bool(d.request.scope.is_some())).field(
            "scope_mode",
            mode,
        ).done()
    }
}

/// A new branch stands on the base given, if that is the trunk or recorded. Without one it stands
/// on the branch that is checked out, if that is recorded; from the trunk, on the default base
/// where that is the trunk or recorded, and else on the trunk.
pub proof fn law_new_branch_stands_on_a_known_base(
    s: StackView,
    current: Seq<char>,
    from: Option<Seq<char>>,
)
    ensures
        from matches Some(b) ==> (parent_for(s, current, from) is Ok <==> b == s.trunk
            || s.branches.contains_key(b)),
        from matches Some(b) && parent_for(s, current, from) is Ok ==> parent_for(s, current, from)
            == Ok::<Seq<char>, ErrorView>(from->0),
        from is None && current != s.trunk ==> (parent_for(s, current, from) is Ok
            <==> s.branches.contains_key(current)),
        from is None && current != s.trunk && s.branches.contains_key(current) ==> parent_for(
            s,
            current,
            from,
        ) == Ok::<Seq<char>, ErrorView>(current),
        from is None && current == s.trunk && (s.default_from matches Some(d) && (d == s.trunk
            || s.branches.contains_key(d))) ==> parent_for(s, current, from) == Ok::<
            Seq<char>,
            ErrorView,
        >(s.default_from->0),
        from is None && current == s.trunk && !(s.default_from matches Some(d) && (d == s.trunk
            || s.branches.contains_key(d))) ==> parent_for(s, current, from) == Ok::<
            Seq<char>,
            ErrorView,
        >(s.trunk),
{
}

/// Once git made the branch, it is recorded on its parent at the commit it was made at, with its
/// scope and no pull request; no other branch changes.
pub proof fn law_created_branch_is_recorded(v: CreateView, k: Seq<char>)
    requires
        v.wf(),
        v.phase is Create,
    ensures
        ({
            let w = v.step(ReplyView::Done);
            let meta = w.state.branches[v.name];
            &&& w.state.branches.contains_key(v.name)
            &&& meta.parent == v.parent
            &&& meta.parent_head == v.head
            &&& meta.pr_number is None
            &&& meta.scope == v.scope
            &&& meta.scope_mode == v.scope_mode
            &&& w.state.trunk == v.state.trunk
            &&& k != v.name ==> (w.state.branches.contains_key(k) <==> v.state.branches.contains_key(
                k,
            ))
            &&& k != v.name && v.state.branches.contains_key(k) ==> w.state.branches[k]
                == v.state.branches[k]
            &&& v.no_worktree ==> w.phase is Save
            &&& !v.no_worktree ==> w.phase is AddWorktree
        }),
{
}

/// The branch is made at the commit that git gave for its parent.
pub proof fn law_branch_is_made_at_the_parents_tip(v: CreateView, head: Seq<char>)
    requires
        v.phase is Head,
    ensures
        v.step(ReplyView::Text(head)).head == head,
        !v.commit && v.no_worktree ==> v.step(ReplyView::Text(head)).phase is Create,
        !v.commit && !v.no_worktree ==> v.step(ReplyView::Text(head)).phase is Path,
        v.commit && v.stage is Some ==> v.step(ReplyView::Text(head)).phase is Stage,
        v.commit && v.stage is None ==> v.step(ReplyView::Text(head)).phase is CheckStaged,
{
}

/// A commit goes to the new worktree, never to the parent: changes are stashed before the branch
/// is made, brought into its worktree, and committed there after the record is saved. With nothing
/// staged, or without a worktree, there is no branch at all.
pub proof fn law_first_commit_goes_to_the_new_worktree(v: CreateView, path: Seq<char>)
    requires
        v.wf(),
    ensures
        v.phase is CheckStaged ==> v.step(ReplyView::Flag(false)).error == Some(
            ErrorView::NothingToCommit,
        ) && v.step(ReplyView::Flag(false)).state == v.state,
        v.phase is CheckStaged && v.no_worktree && v.commit ==> v.step(
            ReplyView::Flag(true),
        ).phase is Failed,
        v.phase is CheckStaged && !v.no_worktree ==> v.step(ReplyView::Flag(true)).phase is Path,
        v.phase is Path && v.commit ==> v.step(ReplyView::Text(path)).phase is Stash && v.step(
            ReplyView::Text(path),
        ).path == path,
        v.phase is Path && !v.commit ==> v.step(ReplyView::Text(path)).phase is Create,
        v.phase is Stash ==> v.step(ReplyView::Flag(true)).stashed && v.step(
            ReplyView::Flag(true),
        ).phase is Create,
        v.phase is AddWorktree && v.stashed ==> v.step(ReplyView::Done).phase is Transfer,
        v.phase is AddWorktree && !v.stashed ==> v.step(ReplyView::Done).phase is Save,
        v.phase is Transfer ==> v.step(ReplyView::Done).phase is Save,
        v.phase is Save && v.commit ==> v.step(ReplyView::Done).phase is CheckMoved,
        v.phase is Save && !v.commit ==> v.step(ReplyView::Done).phase is Finished,
        v.phase is CheckMoved ==> v.step(ReplyView::Flag(true)).phase is Commit && v.step(
            ReplyView::Flag(false),
        ).phase is StageMoved,
        v.phase is StageMoved ==> v.step(ReplyView::Done).phase is Commit,
        v.phase is Commit ==> v.step(ReplyView::Done).phase is Finished,
{
}

/// A branch whose worktree could not be made is dropped and forgotten again; what was stashed is
/// put back.
pub proof fn law_failed_worktree_takes_the_branch_back(v: CreateView, text: Seq<char>)
    requires
        v.wf(),
    ensures
        v.phase is AddWorktree ==> v.step(ReplyView::Failed(text)).phase is DropBranch,
        v.phase is DropBranch ==> v.step(ReplyView::Done).state == v.original,
        v.phase is DropBranch && v.stashed ==> v.step(ReplyView::Done).phase is Unstash,
        v.phase is DropBranch && !v.stashed ==> v.step(ReplyView::Done).phase is Failed,
        v.phase is Create && v.stashed ==> v.step(ReplyView::Failed(text)).phase is Unstash && v.step(
            ReplyView::Failed(text),
        ).state == v.state,
{
}

/// A scope keeps exactly the patterns given that are not blank, without the blanks around them,
/// each once.
pub proof fn law_scope_keeps_patterns_once(s: Seq<Seq<char>>, p: Seq<char>)
    ensures
        tidy(s).contains(p) <==> p.len() > 0 && exists|i: int|
            0 <= i < s.len() && trimmed(#[trigger] s[i]) == p,
        tidy(s).no_duplicates(),
    decreases s.len(),
{
    if s.len() > 0 {
        let low = s.drop_last();
        let t = trimmed(s.last());
        law_scope_keeps_patterns_once(low, p);
        law_scope_keeps_patterns_once(low, t);
        vstd::seq_lib::lemma_seq_contains_after_push(tidy(low), t, p);
        if exists|i: int| 0 <= i < low.len() && trimmed(#[trigger] low[i]) == p {
            let i = choose|i: int| 0 <= i < low.len() && trimmed(#[trigger] low[i]) == p;
            assert(s[i] == low[i]);
        }
        if exists|i: int| 0 <= i < s.len() && trimmed(#[trigger] s[i]) == p {
            let i = choose|i: int| 0 <= i < s.len() && trimmed(#[trigger] s[i]) == p;
            if i < low.len() {
                assert(low[i] == s[i]);
            }
        }
        if t == p {
            assert(s[s.len() - 1] == s.last());
        }
        if t.len() > 0 && !tidy(low).contains(t) {
            assert forall|i: int, j: int|
                0 <= i < tidy(s).len() && 0 <= j < tidy(s).len() && i != j implies tidy(s)[i]
                != tidy(s)[j] by {
                if i == tidy(low).len() {
                    assert(tidy(low)[j] == tidy(s)[j]);
                    assert(tidy(low).contains(tidy(low)[j]));
                } else if j == tidy(low).len() {
                    assert(tidy(low)[i] == tidy(s)[i]);
                    assert(tidy(low).contains(tidy(low)[i]));
                }
            }
        }
    }
}

/// A scope without a mode warns; without a scope there is no mode.
pub proof fn law_scope_warns_by_default(scope: Option<Seq<Seq<char>>>, mode: Option<ScopeMode>)
    ensures
        scope is None ==> recorded_mode(scope, mode) is None,
        scope is Some && mode is None ==> recorded_mode(scope, mode) == Some(ScopeMode::Warn),
        scope is Some && mode is Some ==> recorded_mode(scope, mode) == mode,
{
}

/// A creation begins by asking for the parent's tip, with the record as it is; a scope without a
/// mode warns.
pub proof fn law_create_begins_with_its_request(
    state: StackView,
    name: Seq<char>,
    parent: Seq<char>,
    commit: bool,
    stage: Option<StageMode>,
    no_worktree: bool,
    scope: Option<Seq<Seq<char>>>,
    mode: Option<ScopeMode>,
)
    ensures
        ({
            let v = fresh_create(state, name, parent, commit, stage, no_worktree, scope, mode);
            &&& v.phase is Head
            &&& v.state == state
            &&& v.original == state
            &&& v.name == name
            &&& v.parent == parent
            &&& v.commit == commit
            &&& v.stage == stage
            &&& v.no_worktree == no_worktree
            &&& v.scope == scope
            &&& scope is Some && mode is Some ==> v.scope_mode == mode
            &&& scope is Some && mode is None ==> v.scope_mode == Some(ScopeMode::Warn)
            &&& scope is None ==> v.scope_mode is None
            &&& !v.stashed
            &&& v.error is None
        }),
{
}

/// A receipt of a creation names the branch and its parent, the commit in short form, the worktree
/// exactly where one was made, and whether a scope is set.
pub proof fn law_create_receipt_tells_the_branch(v: CreateView, head: Seq<char>)
    ensures
        create_receipt(v, head) matches JsonView::Object(m) && {
            &&& m["cmd"@] == JsonView::Text("create"@)
            &&& m["branch"@] == JsonView::Text(v.name)
            &&& m["parent"@] == JsonView::Text(v.parent)
            &&& m["head"@] == JsonView::Text(prefix(head, 7))
            &&& m.contains_key("worktree"@) <==> !v.no_worktree
            &&& !v.no_worktree ==> m["worktree"@] == JsonView::Text(v.path)
            &&& m["scope_defined"@] == JsonView::Bool(v.scope is Some)
        },
{
    reveal_strlit("cmd");
    reveal_strlit("branch");
    reveal_strlit("parent");
    reveal_strlit("head");
    reveal_strlit("worktree");
    reveal_strlit("scope_defined");
    reveal_strlit("scope_mode");
    assert("cmd"@.len() == 3);
    assert("branch"@.len() == 6);
    assert("parent"@.len() == 6);
    assert("head"@.len() == 4);
    assert("worktree"@.len() == 8);
    assert("scope_defined"@.len() == 13);
    assert("scope_mode"@.len() == 10);
    assert("branch"@[0] == 'b');
    assert("parent"@[0] == 'p');
}

} // verus!
