//! What a branch changes.

use crate::cmd::parent;
use crate::error::{ErrorView, EzError};
use crate::stack::StackState;
use vstd::prelude::*;
use vstd::string::*;

verus! {

/// The range that a diff of `current` shows: what it changed since it left its parent.
pub fn run(state: &StackState, current: &str) -> (r: Result<String, EzError>)
    ensures
        match r {
            Ok(range) => current@ != state@.trunk && state@.managed(current@) && range@
                == state@.branches[current@].parent + "...HEAD"@,
            Err(e) => if current@ == state@.trunk {
                e@ == ErrorView::OnTrunk
            } else {
                !state@.managed(current@) && e@ == ErrorView::BranchNotInStack(current@)
            },
        },
{
    match parent::run(state, current) {
        Ok(p) => Ok(p.concat("...HEAD")),
        Err(e) => Err(e),
    }
}

} // verus!
