//! Switching to a branch.

use crate::cmd::sync::path_views;
use crate::error::{ErrorView, EzError};
use crate::git::{GitView, WorktreeInfo};
use crate::name_map::NameMap;
use crate::names::ranked;
use crate::stack::{StackState, StackView};
use crate::text::{
    contains, decimal, number, number_of, occurs, opt_view, parse_number, same, views,
};
use vstd::prelude::*;
use vstd::string::*;

verus! {

/// The path of each branch's worktree, by branch; where one branch has several, the last.
pub open spec fn worktrees_of(s: Seq<WorktreeInfo>) -> Map<Seq<char>, Seq<char>>
    decreases s.len(),
{
    if s.len() == 0 {
        Map::empty()
    } else {
        let low = worktrees_of(s.drop_last());
        match s.last().branch {
            Some(b) => low.insert(b@, s.last().path@),
            None => low,
        }
    }
}

/// The path of each branch's worktree, by branch.
pub fn branch_worktree_map(worktrees: &Vec<WorktreeInfo>) -> (r: NameMap<String>)
    ensures
        path_views(r@) == worktrees_of(worktrees@),
{
    let mut out: NameMap<String> = NameMap::new();
    let mut i: usize = 0;
    assert(worktrees@.take(0) =~= Seq::<WorktreeInfo>::empty());
    assert(path_views(out@) =~= Map::<Seq<char>, Seq<char>>::empty());
    while i < worktrees.len()
        invariant
            i <= worktrees.len(),
            path_views(out@) == worktrees_of(worktrees@.take(i as int)),
        decreases worktrees.len() - i,
    {
        let ghost held = out@;
        let w: &WorktreeInfo = &worktrees[i];
        assert(worktrees@.take(i + 1).drop_last() =~= worktrees@.take(i as int));
        assert(worktrees@.take(i + 1).last() == w);
        if let Some(b) = &w.branch {
            out.insert(b.clone(), w.path.clone());
            assert(path_views(out@) =~= path_views(held).insert(b@, w.path@));
        }
        i += 1;
    }
    assert(worktrees@.take(worktrees.len() as int) =~= worktrees@);
    out
}

/// The hint where a branch's files are.
pub fn worktree_edit_hint(wt_path: &str) -> (r: String)
    ensures
        r@ == "Edit files under `"@ + wt_path@ + (if occurs(wt_path@, "/.worktrees/"@) {
            "`. This branch lives in a linked worktree, not the main repo checkout."@
        } else {
            "`."@
        }),
{
    let tail: &str = if contains(wt_path, "/.worktrees/") {
        "`. This branch lives in a linked worktree, not the main repo checkout."
    } else {
        "`."
    };
    String::from_str("Edit files under `").concat(wt_path).concat(tail)
}

/// The warning that a branch does not stand on the tip of its parent, if so.
pub open spec fn stale_warning(s: StackView, g: GitView, target: Seq<char>) -> Option<Seq<char>> {
    if target == s.trunk || !s.managed(target) || g.ancestor(s.branches[target].parent, target) {
        None
    } else {
        Some(
            "branch `"@ + target + "` is not restacked on `"@ + s.branches[target].parent + "`"@,
        )
    }
}

/// The warning that a branch does not stand on the tip of its parent, if so.
pub fn stale_switch_target_warning(state: &StackState, git: &GitView, target: &str) -> (r: Option<
    String,
>)
    ensures
        opt_view(r) == stale_warning(state@, *git, target@),
{
    if state.is_trunk(target) {
        return None;
    }
    match state.branches.get(target) {
        None => None,
        Some(meta) => {
            if git.is_ancestor(&meta.parent, target) {
                None
            } else {
                Some(
                    String::from_str("branch `").concat(target).concat(
                        "` is not restacked on `",
                    ).concat(&meta.parent).concat("`"),
                )
            }
        },
    }
}

/// Whether `b` is the first of `names` that is recorded with pull request `n`.
pub open spec fn first_with_pr(s: StackView, names: Seq<Seq<char>>, n: u64, b: Seq<char>) -> bool {
    exists|i: int|
        {
            &&& 0 <= i < names.len()
            &&& #[trigger] names[i] == b
            &&& s.managed(b)
            &&& s.branches[b].pr_number == Some(n)
            &&& forall|j: int|
                0 <= j < i ==> !(s.managed(#[trigger] names[j]) && s.branches[names[j]].pr_number
                    == Some(n))
        }
}

/// Whether none of `names` is recorded with pull request `n`.
pub open spec fn none_with_pr(s: StackView, names: Seq<Seq<char>>, n: u64) -> bool {
    forall|j: int|
        0 <= j < names.len() ==> !(s.managed(#[trigger] names[j]) && s.branches[names[j]].pr_number
            == Some(n))
}

/// The first of `names` that is recorded with pull request `n`.
pub fn find_by_pr(state: &StackState, names: &Vec<String>, n: u64) -> (r: Option<String>)
    ensures
        match r {
            Some(b) => first_with_pr(state@, views(names@), n, b@),
            None => none_with_pr(state@, views(names@), n),
        },
{
    let ghost all = views(names@);
    let mut i: usize = 0;
    while i < names.len()
        invariant
            i <= names.len(),
            all == views(names@),
            forall|j: int|
                0 <= j < i ==> !(state@.managed(#[trigger] all[j])
                    && state@.branches[all[j]].pr_number == Some(n)),
        decreases names.len() - i,
    {
        assert(all[i as int] == names@[i as int]@);
        if let Some(meta) = state.branches.get(&names[i]) {
            if let Some(k) = meta.pr_number {
                if k == n {
                    return Some(names[i].clone());
                }
            }
        }
        i += 1;
    }
    None
}

/// What to do about a request to switch.
#[derive(Debug)]
pub enum Switch {
    /// The branch is the current one.
    Already(String),
    /// Switch to the branch.
    To(String),
}

/// The branch that `arg` names: a number stands for the branch of that pull request, the first by
/// name; anything else for the trunk or a recorded branch.
pub open spec fn names_branch(s: StackView, arg: Seq<char>, b: Seq<char>) -> bool {
    match number_of(arg) {
        Some(n) => first_with_pr(s, ranked(s.branches.dom()), n, b),
        None => b == arg && (arg == s.trunk || s.managed(arg)),
    }
}

/// The branch to switch to, by name or pull request number.
pub fn run(state: &StackState, current: &str, arg: &str) -> (r: Result<Switch, EzError>)
    ensures
        match r {
            Ok(Switch::Already(b)) => names_branch(state@, arg@, b@) && b@ == current@,
            Ok(Switch::To(b)) => names_branch(state@, arg@, b@) && b@ != current@,
            Err(e) => match number_of(arg@) {
                Some(n) => none_with_pr(state@, ranked(state@.branches.dom()), n) && e@
                    == ErrorView::UserMessage(
                    "No branch found with PR #"@ + decimal(n as nat)
                        + "\n  → Run `ez branch` to see all branches"@,
                ),
                None => arg@ != state@.trunk && !state@.managed(arg@) && e@
                    == ErrorView::BranchNotInStack(arg@),
            },
        },
{
    let target: String = match parse_number(arg) {
        Some(n) => {
            let keys: Vec<String> = state.branches.keys();
            proof {
                crate::names::lemma_ranked(views(keys@), state@.branches.dom());
            }
            match find_by_pr(state, &keys, n) {
                Some(b) => b,
                None => {
                    return Err(
                        EzError::UserMessage(
                            String::from_str("No branch found with PR #").concat(
                                &number(n),
                            ).concat("\n  → Run `ez branch` to see all branches"),
                        ),
                    );
                },
            }
        },
        None => {
            if !state.is_trunk(arg) && !state.is_managed(arg) {
                return Err(EzError::BranchNotInStack(arg.to_owned()));
            }
            arg.to_owned()
        },
    };
    if same(&target, current) {
        Ok(Switch::Already(target))
    } else {
        Ok(Switch::To(target))
    }
}

/// The branches offered for selection: the trunk, then the recorded branches by name.
pub fn selection(state: &StackState) -> (r: Vec<String>)
    ensures
        views(r@) == seq![state@.trunk] + ranked(state@.branches.dom()),
{
    let mut keys: Vec<String> = state.branches.keys();
    proof {
        crate::names::lemma_ranked(views(keys@), state@.branches.dom());
    }
    let ghost names = views(keys@);
    keys.insert(0, state.trunk.clone());
    assert(views(keys@) =~= seq![state@.trunk] + names);
    keys
}

/// A branch's worktree is the last that is told to hold it; one without a branch is nobody's.
pub proof fn law_last_worktree_of_a_branch_counts(
    s: Seq<WorktreeInfo>,
    w: WorktreeInfo,
    k: Seq<char>,
)
    ensures
        w.branch is None ==> worktrees_of(s.push(w)) == worktrees_of(s),
        w.branch matches Some(b) ==> worktrees_of(s.push(w)).contains_key(b@) && worktrees_of(
            s.push(w),
        )[b@] == w.path@,
        w.branch matches Some(b) && b@ != k ==> (worktrees_of(s.push(w)).contains_key(k)
            <==> worktrees_of(s).contains_key(k)) && worktrees_of(s.push(w))[k]
            == worktrees_of(s)[k],
        worktrees_of(Seq::<WorktreeInfo>::empty()) == Map::<Seq<char>, Seq<char>>::empty(),
{
    assert(s.push(w).drop_last() =~= s);
}

/// A warning comes exactly for a recorded branch that does not hold its parent.
pub proof fn law_only_stale_targets_are_warned_of(s: StackView, g: GitView, target: Seq<char>)
    ensures
        stale_warning(s, g, target) is Some <==> target != s.trunk && s.branches.contains_key(
            target,
        ) && !g.ancestor(s.branches[target].parent, target),
{
}

/// An argument names a branch by its name, or by the number of its recorded pull request.
pub proof fn law_argument_names_a_known_branch(s: StackView, arg: Seq<char>, b: Seq<char>)
    requires
        s.branches.dom().finite(),
        names_branch(s, arg, b),
    ensures
        b == s.trunk || s.branches.contains_key(b),
        number_of(arg) is None ==> b == arg,
        number_of(arg) matches Some(n) ==> s.branches.contains_key(b) && s.branches[b].pr_number
            == Some(n),
        number_of(arg) matches Some(n) ==> forall|c: Seq<char>| #[trigger]
            s.branches.contains_key(c) && s.branches[c].pr_number == Some(n) ==> c == b
                || crate::text::lex_less(b, c),
{
    if let Some(n) = number_of(arg) {
        let names = ranked(s.branches.dom());
        crate::names::lemma_ranked_exists(s.branches.dom());
        let i = choose|i: int|
            0 <= i < names.len() && #[trigger] names[i] == b && s.managed(b)
                && s.branches[b].pr_number == Some(n) && forall|j: int|
                0 <= j < i ==> !(s.managed(#[trigger] names[j]) && s.branches[names[j]].pr_number
                    == Some(n));
        assert forall|c: Seq<char>| #[trigger]
            s.branches.contains_key(c) && s.branches[c].pr_number == Some(n) implies c == b
            || crate::text::lex_less(b, c) by {
            assert(names.contains(c));
            let j = choose|j: int| 0 <= j < names.len() && names[j] == c;
            if j < i {
                assert(!s.managed(names[j]) || s.branches[names[j]].pr_number != Some(n));
            }
        }
    }
}

} // verus!
