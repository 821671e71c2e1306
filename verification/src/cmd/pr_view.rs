//! Opening a pull request in the browser.

use crate::error::{ErrorView, EzError};
use crate::stack::{StackState, StackView};
use vstd::prelude::*;
use vstd::string::*;

verus! {

/// The pull request of `current`, which must be a recorded branch.
pub open spec fn pull_of(s: StackView, current: Seq<char>) -> Result<u64, ErrorView> {
    if !s.managed(current) {
        Err(ErrorView::BranchNotInStack(current))
    } else {
        match s.branches[current].pr_number {
            Some(n) => Ok(n),
            None => Err(
                ErrorView::UserMessage(
                    "No PR found for `"@ + current + "` — run `ez push` to create one first"@,
                ),
            ),
        }
    }
}

/// The pull request of `current`, which must be a recorded branch.
pub fn current_pull(state: &StackState, current: &str) -> (r: Result<u64, EzError>)
    ensures
        match pull_of(state@, current@) {
            Ok(n) => r == Ok::<u64, EzError>(n),
            Err(e) => r matches Err(f) && f@ == e,
        },
{
    match state.get_branch(current) {
        Err(e) => Err(e),
        Ok(meta) => match meta.pr_number {
            Some(n) => Ok(n),
            None => Err(
                EzError::UserMessage(
                    String::from_str("No PR found for `").concat(current).concat(
                        "` — run `ez push` to create one first",
                    ),
                ),
            ),
        },
    }
}

/// The pull request to be opened, and what is said of it.
pub fn run(state: &StackState, current: &str) -> (r: Result<(u64, String), EzError>)
    ensures
        match pull_of(state@, current@) {
            Ok(n) => r matches Ok(p) && p.0 == n && p.1@ == "Opened PR for `"@ + current@ + "`"@,
            Err(e) => r matches Err(f) && f@ == e,
        },
{
    match current_pull(state, current) {
        Ok(n) => Ok((n, String::from_str("Opened PR for `").concat(current).concat("`"))),
        Err(e) => Err(e),
    }
}

/// The pull request shown is the one recorded for the branch.
pub proof fn law_pull_is_recorded(s: StackView, current: Seq<char>)
    ensures
        pull_of(s, current) is Ok <==> s.branches.contains_key(current)
            && s.branches[current].pr_number is Some,
        pull_of(s, current) matches Ok(n) ==> s.branches[current].pr_number == Some(n),
{
}

} // verus!
