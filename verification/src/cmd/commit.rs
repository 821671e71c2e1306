//! Committing on a branch of the stack.

use crate::cmd::cascade::outcome_view;
use crate::cmd::committing::CommitView;
use crate::cmd::mutation_guard::{CommitOutcome, StageMode};
use crate::error::{error_view, ErrorView, EzError};
use crate::json::{no_fields, text_list, text_or_null, Json, JsonObject, JsonView};
use crate::stack::{StackState, StackView};
use crate::text::{lines, lines_of, prefix, short, views};
use vstd::prelude::*;
use vstd::string::*;

verus! {

/// What the flags ask to be staged: all files, else the tracked ones, else nothing.
pub fn stage_mode(all: bool, all_files: bool) -> (r: Option<StageMode>)
    ensures
        r == if all_files {
            Some(StageMode::All)
        } else if all {
            Some(StageMode::TrackedOnly)
        } else {
            None
        },
{
    if all_files {
        Some(StageMode::All)
    } else if all {
        Some(StageMode::TrackedOnly)
    } else {
        None
    }
}

/// The first line of a message; the message itself where it has no line.
pub open spec fn subject_of(message: Seq<char>) -> Seq<char> {
    if lines_of(message).len() > 0 {
        lines_of(message)[0]
    } else {
        message
    }
}

/// The first line of a message.
pub fn subject(message: &str) -> (r: String)
    ensures
        r@ == subject_of(message@),
{
    let all: Vec<String> = lines(message);
    assert(views(all@).len() == all.len());
    if all.len() > 0 {
        assert(views(all@)[0] == all@[0]@);
        all[0].clone()
    } else {
        message.to_owned()
    }
}

/// The receipt for a commit.
pub open spec fn commit_receipt_view(o: CommitView) -> JsonView {
    JsonView::Object(
        no_fields().insert("cmd"@, JsonView::Text("commit"@)).insert(
            "branch"@,
            JsonView::Text(o.current),
        ).insert("before"@, JsonView::Text(prefix(o.before, 7))).insert(
            "after"@,
            JsonView::Text(prefix(o.after, 7)),
        ).insert("files_changed"@, JsonView::Number(o.files_changed)).insert(
            "insertions"@,
            JsonView::Number(o.insertions),
        ).insert("deletions"@, JsonView::Number(o.deletions)).insert(
            "scope_defined"@,
            JsonView::Bool(o.scope.scope_defined),
        ).insert("scope_mode"@, text_or_null(o.scope.scope_mode)).insert(
            "out_of_scope_count"@,
            JsonView::Number(o.scope.out_of_scope_files.len() as u64),
        ).insert("out_of_scope_files"@, text_list(o.scope.out_of_scope_files)),
    )
}

/// The receipt for a commit.
pub fn commit_receipt(outcome: &CommitOutcome) -> (r: Json)
    ensures
        r@ == commit_receipt_view(outcome@),
{
    assert(views(outcome.scope.out_of_scope_files@).len()
        == outcome.scope.out_of_scope_files.len());
    JsonObject::new().field("cmd", Json::text("commit")).field(
        "branch",
        Json::text(&outcome.current),
    ).field("before", Json::Text(short(&outcome.before))).field(
        "after",
        Json::Text(short(&outcome.after)),
    ).field("files_changed", Json::Number(outcome.files_changed)).field(
        "insertions",
        Json::Number(outcome.insertions),
    ).field("deletions", Json::Number(outcome.deletions)).field(
        "scope_defined",
        Json::Bool(outcome.scope.scope_defined),
    ).field("scope_mode", Json::opt_text(&outcome.scope.scope_mode)).field(
        "out_of_scope_count",
        Json::count(outcome.scope.out_of_scope_files.len()),
    ).field("out_of_scope_files", Json::texts(&outcome.scope.out_of_scope_files)).done()
}

/// The stages of the command.
#[derive(Clone, Copy, Debug, PartialEq, Eq, Structural)]
pub enum CommitStage {
    /// The guarded commit.
    Commit,
    /// The descendants being restacked.
    Cascade,
    Finished,
    Failed,
}

/// What came of a stage.
#[derive(Debug)]
pub enum CommitEvent {
    /// What the guarded commit gave.
    Committed(Result<Option<CommitOutcome>, EzError>),
    /// The stack after the cascade, and how that ended.
    Cascaded { state: StackState, outcome: Result<usize, EzError> },
}

/// The contents of a `CommitRun`.
#[verifier::ext_equal]
pub struct CommitRunView {
    pub state: StackView,
    pub stage: CommitStage,
    /// The receipt for the commit, once there is one.
    pub receipt: Option<JsonView>,
    /// How many descendants were restacked.
    pub restacked: nat,
    pub error: Option<ErrorView>,
}

impl CommitRunView {
    pub open spec fn end(self, e: ErrorView) -> CommitRunView {
        CommitRunView { stage: CommitStage::Failed, error: Some(e), ..self }
    }

    /// The command after a stage. What does not belong to the stage changes nothing.
    pub open spec fn step(self, event: CommitEvent) -> CommitRunView {
        match (self.stage, event) {
            (CommitStage::Commit, CommitEvent::Committed(r)) => match r {
                Ok(Some(o)) => CommitRunView {
                    receipt: Some(commit_receipt_view(o@)),
                    stage: CommitStage::Cascade,
                    ..self
                },
                Ok(None) => CommitRunView { stage: CommitStage::Finished, ..self },
                Err(e) => self.end(e@),
            },
            (CommitStage::Cascade, CommitEvent::Cascaded { state, outcome }) => {
                let v = CommitRunView { state: state@, ..self };
                match outcome_view(outcome) {
                    Ok(n) => CommitRunView { restacked: n, stage: CommitStage::Finished, ..v },
                    Err(e) => v.end(e),
                }
            },
            _ => self,
        }
    }
}

/// Descendants are restacked exactly where a commit was made: a refused commit, or nothing to
/// commit, ends the command with the stack as it was.
pub proof fn law_cascade_follows_a_commit(
    v: CommitRunView,
    r: Result<Option<CommitOutcome>, EzError>,
)
    requires
        v.stage is Commit,
        v.receipt is None,
        v.error is None,
    ensures
        ({
            let w = v.step(CommitEvent::Committed(r));
            &&& w.state == v.state
            &&& match r {
                Ok(Some(o)) => w.stage is Cascade && w.receipt == Some(commit_receipt_view(o@)),
                Ok(None) => w.stage is Finished && w.receipt is None && w.error is None,
                Err(e) => w.stage is Failed && w.receipt is None && w.error == Some(e@),
            }
        }),
{
}

/// The command ends as its cascade did: well, with the number of restacked branches, or with the
/// error that tells of those left behind; the commit stands, and so does its receipt.
pub proof fn law_commit_ends_with_its_cascade(
    v: CommitRunView,
    state: StackState,
    outcome: Result<usize, EzError>,
)
    requires
        v.stage is Cascade,
        v.error is None,
    ensures
        ({
            let w = v.step(CommitEvent::Cascaded { state, outcome });
            &&& w.receipt == v.receipt
            &&& w.state == state@
            &&& match outcome {
                Ok(n) => w.stage is Finished && w.restacked == n && w.error is None,
                Err(e) => w.stage is Failed && w.error == Some(e@),
            }
        }),
{
}

/// The command in progress, from one stage to the next.
#[derive(Debug)]
pub struct CommitRun {
    pub state: StackState,
    pub stage: CommitStage,
    pub receipt: Option<Json>,
    pub restacked: usize,
    pub error: Option<EzError>,
}

impl View for CommitRun {
    type V = CommitRunView;

    open spec fn view(&self) -> CommitRunView {
        CommitRunView {
            state: self.state@,
            stage: self.stage,
            receipt: match self.receipt {
                Some(j) => Some(j@),
                None => None,
            },
            restacked: self.restacked as nat,
            error: error_view(self.error),
        }
    }
}

/// The command at its start.
pub fn run(state: &StackState) -> (r: CommitRun)
    ensures
        r@ == (CommitRunView {
            state: state@,
            stage: CommitStage::Commit,
            receipt: None,
            restacked: 0,
            error: None,
        }),
{
    CommitRun {
        state: state.copy(),
        stage: CommitStage::Commit,
        receipt: None,
        restacked: 0,
        error: None,
    }
}

impl CommitRun {
    /// The command after a stage.
    pub fn step(self, event: CommitEvent) -> (r: CommitRun)
        ensures
            r@ == self@.step(event),
    {
        let mut s = self;
        match (s.stage, event) {
            (CommitStage::Commit, CommitEvent::Committed(r)) => match r {
                Ok(Some(o)) => {
                    s.receipt = Some(commit_receipt(&o));
                    s.stage = CommitStage::Cascade;
                },
                Ok(None) => {
                    s.stage = CommitStage::Finished;
                },
                Err(e) => {
                    s.stage = CommitStage::Failed;
                    s.error = Some(e);
                },
            },
            (CommitStage::Cascade, CommitEvent::Cascaded { state, outcome }) => {
                s.state = state;
                match outcome {
                    Ok(n) => {
                        s.restacked = n;
                        s.stage = CommitStage::Finished;
                    },
                    Err(e) => {
                        s.stage = CommitStage::Failed;
                        s.error = Some(e);
                    },
                }
            },
            _ => {},
        }
        s
    }
}

/// The subject of a message is what stands before its first line end.
pub proof fn law_subject_is_the_first_line(line: Seq<char>, rest: Seq<char>)
    requires
        !line.contains('\n'),
    ensures
        subject_of(line) == line,
        line.len() == 0 || line.last() != '\r' ==> subject_of(line + seq!['\n'] + rest) == line,
{
    crate::text::law_lines_end_at_line_ends(line, rest);
    assert((seq![line] + lines_of(rest))[0] == line);
}

/// A receipt of a commit names the branch, the commits before and after in short form, what was
/// changed, and the files outside the scope with their number.
pub proof fn law_commit_receipt_tells_the_commit(o: CommitView)
    ensures
        commit_receipt_view(o) matches JsonView::Object(m) && {
            &&& m["cmd"@] == JsonView::Text("commit"@)
            &&& m["branch"@] == JsonView::Text(o.current)
            &&& m["before"@] == JsonView::Text(prefix(o.before, 7))
            &&& m["after"@] == JsonView::Text(prefix(o.after, 7))
            &&& m["files_changed"@] == JsonView::Number(o.files_changed)
            &&& m["insertions"@] == JsonView::Number(o.insertions)
            &&& m["deletions"@] == JsonView::Number(o.deletions)
            &&& m["scope_defined"@] == JsonView::Bool(o.scope.scope_defined)
            &&& m["out_of_scope_count"@] == JsonView::Number(o.scope.out_of_scope_files.len() as u64)
            &&& m["out_of_scope_files"@] == text_list(o.scope.out_of_scope_files)
        },
{
    reveal_strlit("cmd");
    reveal_strlit("branch");
    reveal_strlit("before");
    reveal_strlit("after");
    reveal_strlit("files_changed");
    reveal_strlit("insertions");
    reveal_strlit("deletions");
    reveal_strlit("scope_defined");
    reveal_strlit("scope_mode");
    reveal_strlit("out_of_scope_count");
    reveal_strlit("out_of_scope_files");
    assert("cmd"@.len() == 3);
    assert("branch"@.len() == 6);
    assert("before"@.len() == 6);
    assert("after"@.len() == 5);
    assert("files_changed"@.len() == 13);
    assert("insertions"@.len() == 10);
    assert("deletions"@.len() == 9);
    assert("scope_defined"@.len() == 13);
    assert("scope_mode"@.len() == 10);
    assert("out_of_scope_count"@.len() == 18);
    assert("out_of_scope_files"@.len() == 18);
    assert("branch"@[1] == 'r');
    assert("before"@[1] == 'e');
    assert("files_changed"@[0] == 'f');
    assert("scope_defined"@[0] == 's');
    assert("insertions"@[0] == 'i');
    assert("scope_mode"@[0] == 's');
    assert("out_of_scope_count"@[13] == 'c');
    assert("out_of_scope_files"@[13] == 'f');
}

} // verus!
