//! The errors that commands report.

use crate::text::{count, decimal};
use vstd::prelude::*;
use vstd::string::*;

verus! {

/// Why a command stopped.
#[derive(Debug)]
pub enum EzError {
    /// The directory is not inside a git repository.
    NotARepo,
    /// The repository already holds stack metadata.
    AlreadyInitialized,
    /// The command needs a branch other than the trunk.
    OnTrunk,
    /// The branch is not recorded in the stack metadata.
    BranchNotInStack(String),
    /// A branch of that name exists already.
    BranchAlreadyExists(String),
    /// Nothing lies above the current branch.
    AlreadyAtTop,
    /// Nothing lies below the current branch.
    AlreadyAtBottom,
    /// There is nothing staged that a commit could hold.
    NothingToCommit,
    /// A rebase of the branch stopped on a conflict.
    RebaseConflict(String),
    /// Some branches were left behind by a restack.
    RestackIncomplete { count: usize, branches: String },
    /// GitHub refused a request.
    GhError(String),
    /// A command was used in a way that it does not support.
    UserMessage(String),
    /// Anything else, in the words of the operation that failed.
    Other(String),
}

/// The contents of an `EzError`.
#[verifier::ext_equal]
pub enum ErrorView {
    NotARepo,
    AlreadyInitialized,
    OnTrunk,
    BranchNotInStack(Seq<char>),
    BranchAlreadyExists(Seq<char>),
    AlreadyAtTop,
    AlreadyAtBottom,
    NothingToCommit,
    RebaseConflict(Seq<char>),
    RestackIncomplete { count: nat, branches: Seq<char> },
    GhError(Seq<char>),
    UserMessage(Seq<char>),
    Other(Seq<char>),
}

impl View for EzError {
    type V = ErrorView;

    open spec fn view(&self) -> ErrorView {
        match *self {
            EzError::NotARepo => ErrorView::NotARepo,
            EzError::AlreadyInitialized => ErrorView::AlreadyInitialized,
            EzError::OnTrunk => ErrorView::OnTrunk,
            EzError::BranchNotInStack(b) => ErrorView::BranchNotInStack(b@),
            EzError::BranchAlreadyExists(b) => ErrorView::BranchAlreadyExists(b@),
            EzError::AlreadyAtTop => ErrorView::AlreadyAtTop,
            EzError::AlreadyAtBottom => ErrorView::AlreadyAtBottom,
            EzError::NothingToCommit => ErrorView::NothingToCommit,
            EzError::RebaseConflict(b) => ErrorView::RebaseConflict(b@),
            EzError::RestackIncomplete { count, branches } => ErrorView::RestackIncomplete {
                count: count as nat,
                branches: branches@,
            },
            EzError::GhError(m) => ErrorView::GhError(m@),
            EzError::UserMessage(m) => ErrorView::UserMessage(m@),
            EzError::Other(m) => ErrorView::Other(m@),
        }
    }
}

/// The contents of an optional error.
pub open spec fn error_view(e: Option<EzError>) -> Option<ErrorView> {
    match e {
        Some(x) => Some(x@),
        None => None,
    }
}

/// The text that a user sees for an error.
pub open spec fn error_text(e: ErrorView) -> Seq<char> {
    match e {
        ErrorView::NotARepo => "not a git repository"@,
        ErrorView::AlreadyInitialized => "ez is already initialized in this repository"@,
        ErrorView::OnTrunk => "cannot do this on the trunk branch"@,
        ErrorView::BranchNotInStack(b) => "branch `"@ + b + "` is not tracked by ez"@,
        ErrorView::BranchAlreadyExists(b) => "branch `"@ + b + "` already exists"@,
        ErrorView::AlreadyAtTop => "already at the top of the stack"@,
        ErrorView::AlreadyAtBottom => "already at the bottom of the stack"@,
        ErrorView::NothingToCommit => "nothing to commit"@,
        ErrorView::RebaseConflict(b) => "rebase conflict on branch `"@ + b + "`"@,
        ErrorView::RestackIncomplete { count, branches } => decimal(count)
            + " branch(es) could not be restacked: "@ + branches,
        ErrorView::GhError(m) => "GitHub error: "@ + m,
        ErrorView::UserMessage(m) => m,
        ErrorView::Other(m) => m,
    }
}

impl EzError {
    /// The text that a user sees for this error.
    pub fn message(&self) -> (r: String)
        ensures
            r@ == error_text(self@),
    {
        match self {
            EzError::NotARepo => String::from_str("not a git repository"),
            EzError::AlreadyInitialized => String::from_str(
                "ez is already initialized in this repository",
            ),
            EzError::OnTrunk => String::from_str("cannot do this on the trunk branch"),
            EzError::BranchNotInStack(b) => String::from_str("branch `").concat(b).concat(
                "` is not tracked by ez",
            ),
            EzError::BranchAlreadyExists(b) => String::from_str("branch `").concat(b).concat(
                "` already exists",
            ),
            EzError::AlreadyAtTop => String::from_str("already at the top of the stack"),
            EzError::AlreadyAtBottom => String::from_str("already at the bottom of the stack"),
            EzError::NothingToCommit => String::from_str("nothing to commit"),
            EzError::RebaseConflict(b) => String::from_str("rebase conflict on branch `").concat(
                b,
            ).concat("`"),
            EzError::RestackIncomplete { count: n, branches } => count(*n).concat(
                " branch(es) could not be restacked: ",
            ).concat(branches),
            EzError::GhError(m) => String::from_str("GitHub error: ").concat(m),
            EzError::UserMessage(m) => m.clone(),
            EzError::Other(m) => m.clone(),
        }
    }

    /// What the process exits with: a conflict can be told from other failures.
    pub fn exit_code(&self) -> (r: u8)
        ensures
            r == if self@ is RebaseConflict || self@ is RestackIncomplete {
                3u8
            } else {
                1u8
            },
    {
        match self {
            EzError::RebaseConflict(_) | EzError::RestackIncomplete { .. } => 3,
            _ => 1,
        }
    }
}

} // verus!
