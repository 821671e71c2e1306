//! Editing the title and body of a pull request.

use crate::error::{ErrorView, EzError};
use crate::github::PrInfo;
use crate::stack::{StackState, StackView};
use crate::text::{copy_opt, decimal, number, opt_view, same};
use vstd::prelude::*;
use vstd::string::*;

verus! {

/// The names that are tried for an edit buffer before the search is given up.
pub const ATTEMPTS: u64 = 100;

/// The file name of an edit buffer.
pub open spec fn buffer_text(pr_number: u64, process: u64, id: u64) -> Seq<char> {
    "ez-pr-"@ + decimal(pr_number as nat) + "-"@ + decimal(process as nat) + "-"@ + decimal(
        id as nat,
    ) + ".md"@
}

/// The file name of an edit buffer.
pub fn buffer_name(pr_number: u64, process: u64, id: u64) -> (r: String)
    ensures
        r@ == buffer_text(pr_number, process, id),
{
    let pr: String = number(pr_number);
    let owner: String = number(process);
    let digits: String = number(id);
    String::from_str("ez-pr-").concat(&pr).concat("-").concat(&owner).concat("-").concat(
        &digits,
    ).concat(".md")
}

/// What came of making a file that must not exist yet.
#[derive(Debug)]
pub enum Attempt {
    Made,
    Taken,
    Failed(String),
}

/// How far the search for an edit buffer is.
#[derive(Clone, Copy, Debug, PartialEq, Eq, Structural)]
pub enum SearchPhase {
    /// The file of the current name is to be made.
    Try,
    /// It was made.
    Made,
    /// The search ended without a file.
    Failed,
}

/// The contents of an `EditBuffer`.
#[verifier::ext_equal]
pub struct BufferView {
    pub pr_number: u64,
    pub process: u64,
    pub id: u64,
    /// The names that were tried.
    pub tried: nat,
    pub phase: SearchPhase,
    pub error: Option<Seq<char>>,
}

/// The number that follows an id; after the largest comes zero.
pub open spec fn next_id(id: u64) -> u64 {
    if id == u64::MAX {
        0
    } else {
        (id + 1) as u64
    }
}

impl BufferView {
    /// The search after an attempt. A name that is taken makes way for the next one, a hundred
    /// times at most; any other failure ends the search.
    pub open spec fn step(self, attempt: Attempt) -> BufferView {
        if self.phase != SearchPhase::Try {
            self
        } else {
            match attempt {
                Attempt::Made => BufferView { phase: SearchPhase::Made, ..self },
                Attempt::Taken => if self.tried + 1 >= ATTEMPTS {
                    BufferView {
                        id: next_id(self.id),
                        tried: self.tried + 1,
                        phase: SearchPhase::Failed,
                        error: Some(
                            "failed to create a unique temporary PR edit buffer after 100 attempts"@,
                        ),
                        ..self
                    }
                } else {
                    BufferView { id: next_id(self.id), tried: self.tried + 1, ..self }
                },
                Attempt::Failed(_) => BufferView {
                    phase: SearchPhase::Failed,
                    error: Some("failed to create temporary PR edit buffer"@),
                    ..self
                },
            }
        }
    }
}

/// A file in which a pull request's body is edited, or the search for its name.
#[derive(Debug)]
pub struct EditBuffer {
    pr_number: u64,
    process: u64,
    id: u64,
    tried: u64,
    phase: SearchPhase,
    error: Option<String>,
}

impl View for EditBuffer {
    type V = BufferView;

    closed spec fn view(&self) -> BufferView {
        BufferView {
            pr_number: self.pr_number,
            process: self.process,
            id: self.id,
            tried: self.tried as nat,
            phase: self.phase,
            error: opt_view(self.error),
        }
    }
}

impl EditBuffer {
    #[verifier::type_invariant]
    spec fn in_order(self) -> bool {
        self.tried <= ATTEMPTS && (self.phase == SearchPhase::Try ==> self.tried < ATTEMPTS)
    }

    /// Starts the search for a file name at `first`.
    pub fn begin(pr_number: u64, process: u64, first: u64) -> (r: EditBuffer)
        ensures
            r@ == (BufferView {
                pr_number,
                process,
                id: first,
                tried: 0,
                phase: SearchPhase::Try,
                error: None,
            }),
    {
        EditBuffer {
            pr_number,
            process,
            id: first,
            tried: 0,
            phase: SearchPhase::Try,
            error: None,
        }
    }

    /// The search after an attempt to make the file of the current name.
    pub fn step(self, attempt: Attempt) -> (r: EditBuffer)
        ensures
            r@ == self@.step(attempt),
    {
        proof {
            use_type_invariant(&self);
        }
        match self.phase {
            SearchPhase::Try => {},
            _ => return self,
        }
        match attempt {
            Attempt::Made => EditBuffer {
                pr_number: self.pr_number,
                process: self.process,
                id: self.id,
                tried: self.tried,
                phase: SearchPhase::Made,
                error: self.error,
            },
            Attempt::Taken => {
                let id: u64 = if self.id == u64::MAX {
                    0
                } else {
                    self.id + 1
                };
                let tried: u64 = self.tried + 1;
                if tried >= ATTEMPTS {
                    EditBuffer {
                        pr_number: self.pr_number,
                        process: self.process,
                        id,
                        tried,
                        phase: SearchPhase::Failed,
                        error: Some(
                            String::from_str(
                                "failed to create a unique temporary PR edit buffer after 100 attempts",
                            ),
                        ),
                    }
                } else {
                    EditBuffer {
                        pr_number: self.pr_number,
                        process: self.process,
                        id,
                        tried,
                        phase: SearchPhase::Try,
                        error: self.error,
                    }
                }
            },
            Attempt::Failed(_) => EditBuffer {
                pr_number: self.pr_number,
                process: self.process,
                id: self.id,
                tried: self.tried,
                phase: SearchPhase::Failed,
                error: Some(String::from_str("failed to create temporary PR edit buffer")),
            },
        }
    }

    /// How far the search is.
    pub fn phase(&self) -> (r: SearchPhase)
        ensures
            r == self@.phase,
    {
        self.phase
    }

    /// The current file name.
    pub fn path(&self) -> (r: String)
        ensures
            r@ == buffer_text(self@.pr_number, self@.process, self@.id),
    {
        buffer_name(self.pr_number, self.process, self.id)
    }

    /// Why the search failed, if it did.
    pub fn error(&self) -> (r: Option<String>)
        ensures
            opt_view(r) == self@.error,
    {
        copy_opt(&self.error)
    }
}

/// The search after `n` names in a row that were taken.
pub open spec fn after_taken(v: BufferView, n: nat) -> BufferView
    decreases n,
{
    if n == 0 {
        v
    } else {
        after_taken(v, (n - 1) as nat).step(Attempt::Taken)
    }
}

/// A search that starts afresh tries a hundred names, not more: it goes on while fewer were
/// taken, and fails once that many were.
pub proof fn law_search_ends(v: BufferView, n: nat)
    requires
        v.tried == 0,
        v.phase == SearchPhase::Try,
    ensures
        after_taken(v, n).phase == if n < ATTEMPTS {
            SearchPhase::Try
        } else {
            SearchPhase::Failed
        },
        after_taken(v, n).tried == if n < ATTEMPTS {
            n
        } else {
            ATTEMPTS as nat
        },
    decreases n,
{
    if n > 0 {
        law_search_ends(v, (n - 1) as nat);
    }
}

/// The editor to start: the visual one, else the plain one, else `vi`.
pub fn resolve_editor(visual: Option<&str>, editor: Option<&str>) -> (r: String)
    ensures
        r@ == match (visual, editor) {
            (Some(v), _) => v@,
            (None, Some(e)) => e@,
            (None, None) => "vi"@,
        },
{
    match (visual, editor) {
        (Some(v), _) => v.to_owned(),
        (None, Some(e)) => e.to_owned(),
        (None, None) => String::from_str("vi"),
    }
}

/// Where a body comes from.
#[derive(Debug)]
pub enum BodySource {
    /// The body is left alone.
    Keep,
    Text(String),
    File(String),
}

/// How a pull request is edited.
#[derive(Debug)]
pub enum EditPlan {
    /// The body is edited by hand.
    Editor,
    /// Title and body are given.
    Given { title: Option<String>, body: BodySource },
}

/// The contents of an `EditPlan`; of a body, `Ok` is its text and `Err` the file that holds it.
#[verifier::ext_equal]
pub enum EditView {
    Editor,
    Given { title: Option<Seq<char>>, body: Option<Result<Seq<char>, Seq<char>>> },
}

impl BodySource {
    /// Where the body comes from: `Ok` is its text, `Err` the file that holds it.
    pub open spec fn source(self) -> Option<Result<Seq<char>, Seq<char>>> {
        match self {
            BodySource::Keep => None,
            BodySource::Text(t) => Some(Ok(t@)),
            BodySource::File(f) => Some(Err(f@)),
        }
    }
}

impl View for EditPlan {
    type V = EditView;

    open spec fn view(&self) -> EditView {
        match *self {
            EditPlan::Editor => EditView::Editor,
            EditPlan::Given { title, body } => EditView::Given {
                title: opt_view(title),
                body: body.source(),
            },
        }
    }
}

/// How a pull request is edited: by hand where nothing is given. A file goes before a text.
pub open spec fn edit_plan(
    title: Option<Seq<char>>,
    body: Option<Seq<char>>,
    body_file: Option<Seq<char>>,
) -> EditView {
    if title is None && body is None && body_file is None {
        EditView::Editor
    } else {
        EditView::Given {
            title,
            body: match (body_file, body) {
                (Some(f), _) => Some(Err(f)),
                (None, Some(t)) => Some(Ok(t)),
                (None, None) => None,
            },
        }
    }
}

/// Why `current` has no pull request that could be edited, if so.
pub open spec fn edit_fault(s: StackView, current: Seq<char>) -> Option<ErrorView> {
    if current == s.trunk {
        Some(ErrorView::OnTrunk)
    } else if !s.managed(current) {
        Some(ErrorView::BranchNotInStack(current))
    } else if s.branches[current].pr_number is None {
        Some(
            ErrorView::Other(
                "No PR found for branch `"@ + current + "` — run `ez push` to create one first"@,
            ),
        )
    } else {
        None
    }
}

/// The pull request of `current`, and how it is edited.
pub fn run(
    state: &StackState,
    current: &str,
    title: Option<String>,
    body: Option<String>,
    body_file: Option<String>,
) -> (r: Result<(u64, EditPlan), EzError>)
    ensures
        match r {
            Ok(p) => edit_fault(state@, current@) is None && state@.branches[current@].pr_number
                == Some(p.0) && p.1@ == edit_plan(
                opt_view(title),
                opt_view(body),
                opt_view(body_file),
            ),
            Err(e) => edit_fault(state@, current@) == Some(e@),
        },
{
    if state.is_trunk(current) {
        return Err(EzError::OnTrunk);
    }
    let meta = match state.get_branch(current) {
        Ok(m) => m,
        Err(e) => return Err(e),
    };
    let n: u64 = match meta.pr_number {
        Some(n) => n,
        None => return Err(
            EzError::Other(
                String::from_str("No PR found for branch `").concat(current).concat(
                    "` — run `ez push` to create one first",
                ),
            ),
        ),
    };
    if title.is_none() && body.is_none() && body_file.is_none() {
        return Ok((n, EditPlan::Editor));
    }
    let source: BodySource = match (body_file, body) {
        (Some(f), _) => BodySource::File(f),
        (None, Some(t)) => BodySource::Text(t),
        (None, None) => BodySource::Keep,
    };
    Ok((n, EditPlan::Given { title, body: source }))
}

/// Whether an edited body has to be sent: only where it differs from what was there.
pub fn body_changed(before: &str, after: &str) -> (r: bool)
    ensures
        r == (before@ != after@),
{
    !same(before, after)
}

/// What is said of an edited pull request: its address where GitHub reports it.
pub fn updated_note(pr_number: u64, reported: &Option<PrInfo>, body_only: bool) -> (r: String)
    ensures
        r@ == match *reported {
            Some(pr) => "Updated PR #"@ + decimal(pr.number as nat) + ": "@ + pr.url@,
            None => "Updated PR #"@ + decimal(pr_number as nat) + (if body_only {
                " body"@
            } else {
                ""@
            }),
        },
{
    match reported {
        Some(pr) => {
            let digits: String = number(pr.number);
            String::from_str("Updated PR #").concat(&digits).concat(": ").concat(&pr.url)
        },
        None => {
            let digits: String = number(pr_number);
            let tail: &str = if body_only {
                " body"
            } else {
                ""
            };
            String::from_str("Updated PR #").concat(&digits).concat(tail)
        },
    }
}

/// With nothing given, an editor is opened; a file for the body comes before a text for it.
pub proof fn law_given_parts_are_edited(
    title: Option<Seq<char>>,
    body: Option<Seq<char>>,
    body_file: Option<Seq<char>>,
)
    ensures
        edit_plan(title, body, body_file) is Editor <==> title is None && body is None
            && body_file is None,
        edit_plan(title, body, body_file) matches EditView::Given { title: t, body: b } ==> t
            == title && (b is None <==> body is None && body_file is None) && (body_file
            matches Some(f) ==> b == Some(Err::<Seq<char>, Seq<char>>(f))) && (body_file is None ==> (
        body matches Some(x) ==> b == Some(Ok::<Seq<char>, Seq<char>>(x)))),
{
}

/// A pull request can be edited exactly from a recorded branch other than the trunk that has one.
pub proof fn law_edit_is_refused_for_cause(s: StackView, current: Seq<char>)
    ensures
        edit_fault(s, current) is None <==> current != s.trunk && s.branches.contains_key(current)
            && s.branches[current].pr_number is Some,
        current == s.trunk ==> edit_fault(s, current) == Some(ErrorView::OnTrunk),
        current != s.trunk && !s.branches.contains_key(current) ==> edit_fault(s, current) == Some(
            ErrorView::BranchNotInStack(current),
        ),
{
}

/// A name that is taken is followed by the next number, until all attempts are used up.
pub proof fn law_taken_name_is_followed_by_the_next(v: BufferView)
    requires
        v.phase == SearchPhase::Try,
    ensures
        ({
            let w = v.step(Attempt::Taken);
            &&& v.id < u64::MAX ==> w.id == v.id + 1
            &&& v.id == u64::MAX ==> w.id == 0
            &&& w.tried == v.tried + 1
            &&& w.phase == SearchPhase::Try <==> v.tried + 1 < 100
            &&& w.phase == SearchPhase::Failed <==> v.tried + 1 >= 100
            &&& w.error is Some || w.error == v.error
            &&& w.pr_number == v.pr_number && w.process == v.process
        }),
        v.step(Attempt::Made) == (BufferView { phase: SearchPhase::Made, ..v }),
        forall|e: String|
            (#[trigger] v.step(Attempt::Failed(e))).phase == SearchPhase::Failed && v.step(
                Attempt::Failed(e),
            ).error is Some,
{
}

} // verus!
