//! The parent of the current branch.

use crate::error::{ErrorView, EzError};
use crate::stack::StackState;
use vstd::prelude::*;

verus! {

/// The parent of `current`, which must be a recorded branch other than the trunk.
pub fn run(state: &StackState, current: &str) -> (r: Result<String, EzError>)
    ensures
        match r {
            Ok(p) => current@ != state@.trunk && state@.managed(current@) && p@
                == state@.branches[current@].parent,
            Err(e) => if current@ == state@.trunk {
                e@ == ErrorView::OnTrunk
            } else {
                !state@.managed(current@) && e@ == ErrorView::BranchNotInStack(current@)
            },
        },
{
    if state.is_trunk(current) {
        return Err(EzError::OnTrunk);
    }
    match state.get_branch(current) {
        Ok(meta) => Ok(meta.parent.clone()),
        Err(e) => Err(e),
    }
}

} // verus!
