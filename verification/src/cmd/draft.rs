//! Turning a pull request into a draft, and back.

use crate::error::{ErrorView, EzError};
use crate::stack::{StackState, StackView};
use crate::text::{decimal, number};
use vstd::prelude::*;
use vstd::string::*;

verus! {

/// The pull request of `current`, which must be a recorded branch other than the trunk.
pub open spec fn own_pull(s: StackView, current: Seq<char>) -> Result<u64, ErrorView> {
    if current == s.trunk {
        Err(ErrorView::OnTrunk)
    } else if !s.managed(current) {
        Err(ErrorView::BranchNotInStack(current))
    } else {
        match s.branches[current].pr_number {
            Some(n) => Ok(n),
            None => Err(
                ErrorView::Other(
                    "No PR found for `"@ + current + "` — run `ez push` to create one first"@,
                ),
            ),
        }
    }
}

/// The pull request that is to be marked, and what is said once it is: ready for review, or a
/// draft.
pub fn run(state: &StackState, current: &str, ready: bool) -> (r: Result<(u64, String), EzError>)
    ensures
        match own_pull(state@, current@) {
            Ok(n) => r matches Ok(p) && p.0 == n && p.1@ == "PR #"@ + decimal(n as nat) + (if ready {
                " marked as ready for review"@
            } else {
                " marked as draft"@
            }),
            Err(e) => r matches Err(f) && f@ == e,
        },
{
    if state.is_trunk(current) {
        return Err(EzError::OnTrunk);
    }
    let meta = match state.get_branch(current) {
        Ok(m) => m,
        Err(e) => return Err(e),
    };
    match meta.pr_number {
        Some(n) => {
            let digits: String = number(n);
            let tail: &str = if ready {
                " marked as ready for review"
            } else {
                " marked as draft"
            };
            Ok((n, String::from_str("PR #").concat(&digits).concat(tail)))
        },
        None => Err(
            EzError::Other(
                String::from_str("No PR found for `").concat(current).concat(
                    "` — run `ez push` to create one first",
                ),
            ),
        ),
    }
}

/// The pull request of a branch is the one recorded for it, and the trunk has none.
pub proof fn law_own_pull_is_recorded(s: StackView, current: Seq<char>)
    ensures
        own_pull(s, current) is Ok <==> current != s.trunk && s.branches.contains_key(current)
            && s.branches[current].pr_number is Some,
        own_pull(s, current) matches Ok(n) ==> s.branches[current].pr_number == Some(n),
        current == s.trunk ==> own_pull(s, current) == Err::<u64, ErrorView>(ErrorView::OnTrunk),
{
}

} // verus!
