//! Preparing a repository.

use crate::error::{ErrorView, EzError};
use crate::stack::{StackState, StackView};
use crate::text::opt_view;
use vstd::prelude::*;
use vstd::string::*;

verus! {

/// What is known of the directory that is to be prepared.
#[derive(Debug)]
pub struct InitFacts {
    pub is_repo: bool,
    pub initialized: bool,
    /// The default branch of the repository, or why there is none.
    pub default_branch: Result<String, String>,
}

/// The trunk to record, or why the repository cannot be prepared.
pub open spec fn chosen_trunk(trunk: Option<Seq<char>>, facts: InitFacts) -> Result<
    Seq<char>,
    ErrorView,
> {
    if !facts.is_repo {
        Err(ErrorView::NotARepo)
    } else if facts.initialized {
        Err(ErrorView::AlreadyInitialized)
    } else {
        match trunk {
            Some(t) => Ok(t),
            None => match facts.default_branch {
                Ok(t) => Ok(t@),
                Err(e) => Err(ErrorView::Other(e@)),
            },
        }
    }
}

/// The state of a repository in which nothing is recorded yet.
pub open spec fn fresh_state(trunk: Seq<char>, rerere: Option<bool>) -> StackView {
    StackView {
        trunk,
        remote: "origin"@,
        default_from: None,
        repo: None,
        upstream_remote: None,
        fork_repo: None,
        draft: None,
        no_pr: None,
        rerere,
        branches: Map::empty(),
    }
}

/// The state to record for a new repository, with the given trunk or its default branch.
pub fn run(trunk: Option<String>, facts: InitFacts) -> (r: Result<StackState, EzError>)
    ensures
        match chosen_trunk(opt_view(trunk), facts) {
            Ok(t) => r matches Ok(s) && s@ == fresh_state(t, None),
            Err(e) => r matches Err(f) && f@ == e,
        },
{
    if !facts.is_repo {
        return Err(EzError::NotARepo);
    }
    if facts.initialized {
        return Err(EzError::AlreadyInitialized);
    }
    let name: String = match trunk {
        Some(t) => t,
        None => match facts.default_branch {
            Ok(t) => t,
            Err(e) => return Err(EzError::Other(e)),
        },
    };
    let state = StackState::new(name);
    assert(state@ =~= fresh_state(state@.trunk, None));
    Ok(state)
}

/// Notes the answer to the offer to record conflict resolutions. Only a yes is recorded.
pub fn record_rerere(state: &mut StackState, accepted: bool)
    ensures
        final(state)@ == (if accepted {
            StackView { rerere: Some(true), ..old(state)@ }
        } else {
            old(state)@
        }),
{
    if accepted {
        state.rerere = Some(true);
    }
}

/// A stack begins on the trunk given, or else the default branch, with no branches; only in a
/// repository that has none yet.
pub proof fn law_stack_begins_empty(
    trunk: Option<Seq<char>>,
    facts: InitFacts,
    rerere: Option<bool>,
    t: Seq<char>,
)
    ensures
        !facts.is_repo ==> chosen_trunk(trunk, facts) == Err::<Seq<char>, ErrorView>(
            ErrorView::NotARepo,
        ),
        facts.is_repo && facts.initialized ==> chosen_trunk(trunk, facts) == Err::<
            Seq<char>,
            ErrorView,
        >(ErrorView::AlreadyInitialized),
        facts.is_repo && !facts.initialized && trunk is Some ==> chosen_trunk(trunk, facts) == Ok::<
            Seq<char>,
            ErrorView,
        >(trunk->0),
        facts.is_repo && !facts.initialized && trunk is None && facts.default_branch is Ok
            ==> chosen_trunk(trunk, facts) == Ok::<Seq<char>, ErrorView>(
            facts.default_branch->Ok_0@,
        ),
        fresh_state(t, rerere).trunk == t,
        fresh_state(t, rerere).remote == "origin"@,
        fresh_state(t, rerere).rerere == rerere,
        forall|b: Seq<char>| !#[trigger] fresh_state(t, rerere).branches.contains_key(b),
        fresh_state(t, rerere).draft is None && fresh_state(t, rerere).no_pr is None
            && fresh_state(t, rerere).repo is None,
{
}

} // verus!
