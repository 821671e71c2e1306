//! Amending the last commit of a branch.

use crate::cmd::cascade::outcome_view;
use crate::error::{error_view, ErrorView, EzError};
use crate::json::{no_fields, Json, JsonObject, JsonView};
use crate::stack::{StackState, StackView};
use crate::text::{prefix, short};
use vstd::prelude::*;
use vstd::string::*;

verus! {

/// Whether there is anything to amend with: all changes were staged, or some are.
pub fn ensure_staged(all: bool, has_staged: bool) -> (r: Result<(), EzError>)
    ensures
        match r {
            Ok(_) => all || has_staged,
            Err(e) => !all && !has_staged && e@ == ErrorView::UserMessage(
                "no staged changes to amend\n  → Stage files with `git add <files>`, or use `ez amend -a` to stage all"@,
            ),
        },
{
    if !all && !has_staged {
        return Err(
            EzError::UserMessage(
                String::from_str(
                    "no staged changes to amend\n  → Stage files with `git add <files>`, or use `ez amend -a` to stage all",
                ),
            ),
        );
    }
    Ok(())
}

/// The receipt for an amended commit.
pub open spec fn amended_receipt(
    branch: Seq<char>,
    before: Seq<char>,
    after: Seq<char>,
    files_changed: u64,
    insertions: u64,
    deletions: u64,
) -> JsonView {
    JsonView::Object(
        no_fields().insert("cmd"@, JsonView::Text("amend"@)).insert(
            "branch"@,
            JsonView::Text(branch),
        ).insert("before"@, JsonView::Text(prefix(before, 7))).insert(
            "after"@,
            JsonView::Text(prefix(after, 7)),
        ).insert("files_changed"@, JsonView::Number(files_changed)).insert(
            "insertions"@,
            JsonView::Number(insertions),
        ).insert("deletions"@, JsonView::Number(deletions)),
    )
}

/// The receipt for an amended commit.
pub fn amend_receipt(
    branch: &str,
    before: &str,
    after: &str,
    files_changed: u64,
    insertions: u64,
    deletions: u64,
) -> (r: Json)
    ensures
        r@ == amended_receipt(branch@, before@, after@, files_changed, insertions, deletions),
{
    JsonObject::new().field("cmd", Json::text("amend")).field("branch", Json::text(branch)).field(
        "before",
        Json::Text(short(before)),
    ).field("after", Json::Text(short(after))).field(
        "files_changed",
        Json::Number(files_changed),
    ).field("insertions", Json::Number(insertions)).field("deletions", Json::Number(deletions)).done()
}

/// What an amendment is waiting for.
#[derive(Clone, Copy, Debug, PartialEq, Eq, Structural)]
pub enum AmendPhase {
    /// The staging of all tracked files.
    Stage,
    /// Whether anything is staged.
    CheckStaged,
    /// The commit that is to be amended.
    Head,
    /// The amendment itself.
    Amend,
    /// The commit that took its place.
    HeadAfter,
    /// How much that changes.
    Stat,
    /// The descendants being restacked.
    Cascade,
    /// Nothing: all is done.
    Finished,
    /// Nothing: something failed.
    Failed,
}

/// The answer to what an amendment waits for.
#[derive(Debug)]
pub enum AmendReply {
    Done,
    Failed(String),
    /// Whether anything is staged.
    Staged(bool),
    Text(String),
    Stat { files_changed: u64, insertions: u64, deletions: u64 },
    /// The stack after the cascade, and how that ended.
    Cascaded { state: StackState, outcome: Result<usize, EzError> },
}

/// The contents of an `Amending`.
#[verifier::ext_equal]
pub struct AmendingView {
    pub state: StackView,
    pub current: Seq<char>,
    pub all: bool,
    pub phase: AmendPhase,
    pub amended: bool,
    pub before: Seq<char>,
    pub after: Seq<char>,
    pub receipt: Option<JsonView>,
    /// How many descendants were restacked.
    pub restacked: nat,
    pub error: Option<ErrorView>,
}

/// What is said where there is nothing to amend with.
pub open spec fn unstaged_error() -> ErrorView {
    ErrorView::UserMessage(
        "no staged changes to amend\n  → Stage files with `git add <files>`, or use `ez amend -a` to stage all"@,
    )
}

impl AmendingView {
    pub open spec fn to(self, phase: AmendPhase) -> AmendingView {
        AmendingView { phase: phase, ..self }
    }

    pub open spec fn end(self, e: ErrorView) -> AmendingView {
        AmendingView { phase: AmendPhase::Failed, error: Some(e), ..self }
    }

    /// The amendment after a reply. A reply that it does not wait for changes nothing.
    pub open spec fn step(self, reply: AmendReply) -> AmendingView {
        match (self.phase, reply) {
            (AmendPhase::Stage, AmendReply::Done) => self.to(AmendPhase::Head),
            (AmendPhase::CheckStaged, AmendReply::Staged(any)) => if any {
                self.to(AmendPhase::Head)
            } else {
                self.end(unstaged_error())
            },
            (AmendPhase::Head, AmendReply::Text(t)) => AmendingView {
                before: t@,
                phase: AmendPhase::Amend,
                ..self
            },
            (AmendPhase::Amend, AmendReply::Done) => AmendingView {
                amended: true,
                phase: AmendPhase::HeadAfter,
                ..self
            },
            (AmendPhase::HeadAfter, AmendReply::Text(t)) => AmendingView {
                after: t@,
                phase: AmendPhase::Stat,
                ..self
            },
            (AmendPhase::Stat, AmendReply::Stat { files_changed, insertions, deletions }) => {
                AmendingView {
                    receipt: Some(
                        amended_receipt(
                            self.current,
                            self.before,
                            self.after,
                            files_changed,
                            insertions,
                            deletions,
                        ),
                    ),
                    phase: AmendPhase::Cascade,
                    ..self
                }
            },
            (AmendPhase::Cascade, AmendReply::Cascaded { state, outcome }) => {
                let v = AmendingView { state: state@, ..self };
                match outcome_view(outcome) {
                    Ok(n) => AmendingView { restacked: n, phase: AmendPhase::Finished, ..v },
                    Err(e) => v.end(e),
                }
            },
            (AmendPhase::Stage, AmendReply::Failed(t))
            | (AmendPhase::CheckStaged, AmendReply::Failed(t))
            | (AmendPhase::Head, AmendReply::Failed(t))
            | (AmendPhase::Amend, AmendReply::Failed(t))
            | (AmendPhase::HeadAfter, AmendReply::Failed(t)) => self.end(ErrorView::Other(t@)),
            _ => self,
        }
    }

    /// Whether the amendment has not been asked for yet.
    pub open spec fn before_amend(self) -> bool {
        self.phase is Stage || self.phase is CheckStaged || self.phase is Head
    }
}

/// No commit is amended without staged changes: unless all were staged first, only the answer
/// that something is staged leads on, and its absence ends with an error and no amendment.
pub proof fn law_amend_needs_staged_changes(v: AmendingView, reply: AmendReply)
    requires
        v.phase is CheckStaged,
        !v.amended,
    ensures
        v.step(reply) == v || v.step(reply).phase is Failed || (reply == AmendReply::Staged(true)
            && v.step(reply).phase is Head),
        reply == AmendReply::Staged(false) ==> v.step(reply).error == Some(unstaged_error()),
        !v.step(reply).amended,
{
}

/// An amendment comes after the staging or the check, and never by another way.
pub proof fn law_amend_comes_after_the_check(v: AmendingView, reply: AmendReply)
    requires
        v.step(reply).phase != v.phase,
    ensures
        v.step(reply).phase is Amend ==> v.phase is Head,
        v.step(reply).phase is Head ==> v.phase is Stage || (v.phase is CheckStaged && reply
            == AmendReply::Staged(true)),
        v.step(reply).amended && !v.amended ==> v.phase is Amend && reply is Done,
        v.before_amend() && v.step(reply).phase is Failed ==> v.step(reply).amended == v.amended
            && v.step(reply).state == v.state,
{
}

/// Descendants are restacked only after the amendment, and what that leaves behind is the error
/// that the command ends with.
pub proof fn law_amend_ends_with_its_cascade(
    v: AmendingView,
    state: StackState,
    outcome: Result<usize, EzError>,
)
    requires
        v.phase is Cascade,
        v.error is None,
    ensures
        ({
            let w = v.step(AmendReply::Cascaded { state, outcome });
            match outcome {
                Ok(n) => w.phase is Finished && w.restacked == n && w.error is None,
                Err(e) => w.phase is Failed && w.error == Some(e@),
            }
        }),
{
}

/// An amendment in progress.
#[derive(Debug)]
pub struct Amending {
    state: StackState,
    current: String,
    all: bool,
    phase: AmendPhase,
    amended: bool,
    before: String,
    after: String,
    receipt: Option<Json>,
    restacked: usize,
    error: Option<EzError>,
}

impl View for Amending {
    type V = AmendingView;

    closed spec fn view(&self) -> AmendingView {
        AmendingView {
            state: self.state@,
            current: self.current@,
            all: self.all,
            phase: self.phase,
            amended: self.amended,
            before: self.before@,
            after: self.after@,
            receipt: match self.receipt {
                Some(j) => Some(j@),
                None => None,
            },
            restacked: self.restacked as nat,
            error: error_view(self.error),
        }
    }
}

/// An amendment at its start.
pub open spec fn fresh_amend(state: StackView, current: Seq<char>, all: bool) -> AmendingView {
    AmendingView {
        state,
        current,
        all,
        phase: if all {
            AmendPhase::Stage
        } else {
            AmendPhase::CheckStaged
        },
        amended: false,
        before: Seq::empty(),
        after: Seq::empty(),
        receipt: None,
        restacked: 0,
        error: None,
    }
}

/// Starts to amend the last commit of `current`, a recorded branch other than the trunk. With
/// `all`, all tracked files are staged first; otherwise something must be.
pub fn run(state: &StackState, current: &str, all: bool) -> (r: Result<Amending, EzError>)
    ensures
        match r {
            Ok(a) => current@ != state@.trunk && state@.managed(current@) && a@ == fresh_amend(
                state@,
                current@,
                all,
            ),
            Err(e) => e@ == if current@ == state@.trunk {
                ErrorView::OnTrunk
            } else {
                ErrorView::BranchNotInStack(current@)
            } && (current@ == state@.trunk || !state@.managed(current@)),
        },
{
    if state.is_trunk(current) {
        return Err(EzError::OnTrunk);
    }
    if !state.is_managed(current) {
        return Err(EzError::BranchNotInStack(current.to_owned()));
    }
    Ok(
        Amending {
            state: state.copy(),
            current: current.to_owned(),
            all,
            phase: if all {
                AmendPhase::Stage
            } else {
                AmendPhase::CheckStaged
            },
            amended: false,
            before: String::new(),
            after: String::new(),
            receipt: None,
            restacked: 0,
            error: None,
        },
    )
}

impl Amending {
    fn end(&mut self, e: EzError)
        ensures
            final(self)@ == old(self)@.end(e@),
    {
        self.phase = AmendPhase::Failed;
        self.error = Some(e);
    }

    /// The amendment after a reply to what it waits for.
    pub fn step(self, reply: AmendReply) -> (r: Amending)
        ensures
            r@ == self@.step(reply),
    {
        let mut s = self;
        match (s.phase, reply) {
            (AmendPhase::Stage, AmendReply::Done) => {
                s.phase = AmendPhase::Head;
            },
            (AmendPhase::CheckStaged, AmendReply::Staged(any)) => {
                match ensure_staged(false, any) {
                    Ok(_) => {
                        s.phase = AmendPhase::Head;
                    },
                    Err(e) => s.end(e),
                }
            },
            (AmendPhase::Head, AmendReply::Text(t)) => {
                s.before = t;
                s.phase = AmendPhase::Amend;
            },
            (AmendPhase::Amend, AmendReply::Done) => {
                s.amended = true;
                s.phase = AmendPhase::HeadAfter;
            },
            (AmendPhase::HeadAfter, AmendReply::Text(t)) => {
                s.after = t;
                s.phase = AmendPhase::Stat;
            },
            (AmendPhase::Stat, AmendReply::Stat { files_changed, insertions, deletions }) => {
                s.receipt = Some(
                    amend_receipt(
                        &s.current,
                        &s.before,
                        &s.after,
                        files_changed,
                        insertions,
                        deletions,
                    ),
                );
                s.phase = AmendPhase::Cascade;
            },
            (AmendPhase::Cascade, AmendReply::Cascaded { state, outcome }) => {
                s.state = state;
                match outcome {
                    Ok(n) => {
                        s.restacked = n;
                        s.phase = AmendPhase::Finished;
                    },
                    Err(e) => s.end(e),
                }
            },
            (AmendPhase::Stage, AmendReply::Failed(t)) => s.end(EzError::Other(t)),
            (AmendPhase::CheckStaged, AmendReply::Failed(t)) => s.end(EzError::Other(t)),
            (AmendPhase::Head, AmendReply::Failed(t)) => s.end(EzError::Other(t)),
            (AmendPhase::Amend, AmendReply::Failed(t)) => s.end(EzError::Other(t)),
            (AmendPhase::HeadAfter, AmendReply::Failed(t)) => s.end(EzError::Other(t)),
            _ => {},
        }
        s
    }

    /// What the amendment waits for.
    pub fn phase(&self) -> (r: AmendPhase)
        ensures
            r == self@.phase,
    {
        self.phase
    }

    /// The stack so far.
    pub fn state(&self) -> (r: &StackState)
        ensures
            r@ == self@.state,
    {
        &self.state
    }

    /// The receipt, once the commit is amended.
    pub fn receipt(&self) -> (r: Option<&Json>)
        ensures
            (match r {
                Some(j) => Some(j@),
                None => None,
            }) == self@.receipt,
    {
        match &self.receipt {
            Some(j) => Some(j),
            None => None,
        }
    }

    /// How many descendants were restacked, or why the amendment failed.
    pub fn finish(self) -> (r: Result<usize, EzError>)
        ensures
            match self@.error {
                Some(e) => r matches Err(x) && x@ == e,
                None => r matches Ok(n) && n == self@.restacked,
            },
    {
        match self.error {
            Some(e) => Err(e),
            None => Ok(self.restacked),
        }
    }
}

/// An amend stages all where asked to, and otherwise needs something staged; it tells the commit
/// before it and the one after it.
pub proof fn law_amend_tells_both_commits(
    state: StackView,
    current: Seq<char>,
    all: bool,
    v: AmendingView,
    t: String,
)
    ensures
        all ==> fresh_amend(state, current, all).phase is Stage,
        !all ==> fresh_amend(state, current, all).phase is CheckStaged,
        v.phase is Stage ==> v.step(AmendReply::Done).phase is Head,
        v.phase is Head ==> v.step(AmendReply::Text(t)).before == t@ && v.step(
            AmendReply::Text(t),
        ).phase is Amend && v.step(AmendReply::Text(t)).after == v.after,
        v.phase is HeadAfter ==> v.step(AmendReply::Text(t)).after == t@ && v.step(
            AmendReply::Text(t),
        ).before == v.before && v.step(AmendReply::Text(t)).phase is Stat,
        v.phase is Stat ==> forall|f: u64, i: u64, d: u64|
            (#[trigger] v.step(
                AmendReply::Stat { files_changed: f, insertions: i, deletions: d },
            )).receipt == Some(amended_receipt(v.current, v.before, v.after, f, i, d)),
{
}

/// A receipt of an amend names the branch, the commits before and after in short form, and what
/// was changed.
pub proof fn law_amend_receipt_tells_the_commit(
    branch: Seq<char>,
    before: Seq<char>,
    after: Seq<char>,
    files_changed: u64,
    insertions: u64,
    deletions: u64,
)
    ensures
        amended_receipt(branch, before, after, files_changed, insertions, deletions) matches JsonView::Object(m) && {
            &&& m["cmd"@] == JsonView::Text("amend"@)
            &&& m["branch"@] == JsonView::Text(branch)
            &&& m["before"@] == JsonView::Text(prefix(before, 7))
            &&& m["after"@] == JsonView::Text(prefix(after, 7))
            &&& m["files_changed"@] == JsonView::Number(files_changed)
            &&& m["insertions"@] == JsonView::Number(insertions)
            &&& m["deletions"@] == JsonView::Number(deletions)
        },
{
    reveal_strlit("cmd");
    reveal_strlit("branch");
    reveal_strlit("before");
    reveal_strlit("after");
    reveal_strlit("files_changed");
    reveal_strlit("insertions");
    reveal_strlit("deletions");
    assert("cmd"@.len() == 3);
    assert("branch"@.len() == 6);
    assert("before"@.len() == 6);
    assert("after"@.len() == 5);
    assert("files_changed"@.len() == 13);
    assert("insertions"@.len() == 10);
    assert("deletions"@.len() == 9);
    assert("branch"@[1] == 'r');
    assert("before"@[1] == 'e');
}

} // verus!
