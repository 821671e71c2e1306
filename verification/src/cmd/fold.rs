//! Folding a branch into the one below it, without rewriting a commit.

use crate::error::{ErrorView, EzError};
use crate::git::GitView;
use crate::name_map::NameMap;
use crate::names::{rank_names, ranked};
use crate::stack::{topo, StackState, StackView};
use crate::text::{
    copy_all, count, decimal, join, joined, opt_view, path_within, same, views, within_path,
};
use vstd::prelude::*;
use vstd::string::*;

verus! {

/// What decides whether a branch can be folded.
#[derive(Debug)]
pub struct FoldValidationInput {
    pub target: String,
    pub parent: String,
    pub trunk: String,
    pub pr_number: Option<u64>,
    pub parent_is_ancestor: bool,
}

/// Why a branch cannot be folded, if so.
pub open spec fn fold_fault(i: FoldValidationInput) -> Option<ErrorView> {
    if i.target@ == i.trunk@ {
        Some(ErrorView::OnTrunk)
    } else if i.parent@ == i.trunk@ {
        Some(
            ErrorView::UserMessage(
                "`"@ + i.target@
                    + "` is the bottom stack layer; folding it would move local trunk\n  → Use `ez merge --local` when local trunk landing is available"@,
            ),
        )
    } else if i.pr_number is Some {
        Some(
            ErrorView::UserMessage(
                "`"@ + i.target@
                    + "` already has a pull request; local fold currently supports PR-less layers only\n  → Merge the PR, or remove its PR association before folding"@,
            ),
        )
    } else if !i.parent_is_ancestor {
        Some(
            ErrorView::UserMessage(
                "`"@ + i.target@ + "` no longer contains the current tip of parent `"@ + i.parent@
                    + "`\n  → Run `ez restack`, then retry the fold"@,
            ),
        )
    } else {
        None
    }
}

/// Whether a branch can be folded: it is not the trunk nor right above it, has no pull request,
/// and holds the tip of its parent.
pub fn validate_fold_input(input: &FoldValidationInput) -> (r: Result<(), EzError>)
    ensures
        match r {
            Ok(_) => fold_fault(*input) is None,
            Err(e) => fold_fault(*input) == Some(e@),
        },
{
    if same(&input.target, &input.trunk) {
        return Err(EzError::OnTrunk);
    }
    if same(&input.parent, &input.trunk) {
        return Err(
            EzError::UserMessage(
                String::from_str("`").concat(&input.target).concat(
                    "` is the bottom stack layer; folding it would move local trunk\n  → Use `ez merge --local` when local trunk landing is available",
                ),
            ),
        );
    }
    if input.pr_number.is_some() {
        return Err(
            EzError::UserMessage(
                String::from_str("`").concat(&input.target).concat(
                    "` already has a pull request; local fold currently supports PR-less layers only\n  → Merge the PR, or remove its PR association before folding",
                ),
            ),
        );
    }
    if !input.parent_is_ancestor {
        return Err(
            EzError::UserMessage(
                String::from_str("`").concat(&input.target).concat(
                    "` no longer contains the current tip of parent `",
                ).concat(&input.parent).concat("`\n  → Run `ez restack`, then retry the fold"),
            ),
        );
    }
    Ok(())
}

/// A branch's worktree, and how many files in it are staged, modified and untracked.
#[derive(Debug)]
pub struct WorktreeStatus {
    pub path: String,
    pub staged: usize,
    pub modified: usize,
    pub untracked: usize,
}

/// Whether a worktree holds changes that are not committed.
pub open spec fn dirty(w: WorktreeStatus) -> bool {
    w.staged > 0 || w.modified > 0 || w.untracked > 0
}

/// What is said of a worktree with changes.
pub open spec fn dirty_text(b: Seq<char>, w: WorktreeStatus) -> Seq<char> {
    "`"@ + b + "` at `"@ + w.path@ + "` ("@ + decimal(w.staged as nat) + " staged, "@ + decimal(
        w.modified as nat,
    ) + " modified, "@ + decimal(w.untracked as nat) + " untracked)"@
}

/// What is said of the branches of `names` whose worktrees hold changes.
pub open spec fn dirty_lines(m: Map<Seq<char>, WorktreeStatus>, names: Seq<Seq<char>>) -> Seq<
    Seq<char>,
>
    decreases names.len(),
{
    if names.len() == 0 {
        Seq::empty()
    } else {
        let low = dirty_lines(m, names.drop_last());
        let b = names.last();
        if m.contains_key(b) && dirty(m[b]) {
            low.push(dirty_text(b, m[b]))
        } else {
            low
        }
    }
}

/// The branches that a fold touches: the two that are joined, and all above them, by name.
pub open spec fn touched(
    target: Seq<char>,
    parent: Seq<char>,
    descendants: Seq<Seq<char>>,
) -> Seq<Seq<char>> {
    ranked((seq![parent, target] + descendants).to_set())
}

/// Whether no worktree that a fold touches holds changes.
pub fn ensure_clean_worktree_fleet(
    target: &str,
    parent: &str,
    descendants: &Vec<String>,
    worktrees: &NameMap<WorktreeStatus>,
) -> (r: Result<(), EzError>)
    ensures
        ({
            let lines = dirty_lines(
                worktrees@,
                touched(target@, parent@, views(descendants@)),
            );
            match r {
                Ok(_) => lines.len() == 0,
                Err(e) => lines.len() > 0 && e@ == ErrorView::UserMessage(fleet_text(lines)),
            }
        }),
{
    let mut all: Vec<String> = Vec::new();
    all.push(parent.to_owned());
    all.push(target.to_owned());
    let mut rest: Vec<String> = copy_all(descendants);
    all.append(&mut rest);
    assert(views(all@) =~= seq![parent@, target@] + views(descendants@));
    let branches: Vec<String> = rank_names(&all);
    let ghost names = views(branches@);
    let mut lines: Vec<String> = Vec::new();
    let mut i: usize = 0;
    assert(names.take(0) =~= Seq::<Seq<char>>::empty());
    assert(views(lines@) =~= Seq::<Seq<char>>::empty());
    while i < branches.len()
        invariant
            i <= branches.len(),
            names == views(branches@),
            views(lines@) == dirty_lines(worktrees@, names.take(i as int)),
        decreases branches.len() - i,
    {
        let ghost held = views(lines@);
        let b: &String = &branches[i];
        assert(names.take(i + 1).drop_last() =~= names.take(i as int));
        assert(names.take(i + 1).last() == b@);
        if let Some(w) = worktrees.get(b) {
            if w.staged > 0 || w.modified > 0 || w.untracked > 0 {
                let line: String = String::from_str("`").concat(b).concat("` at `").concat(
                    &w.path,
                ).concat("` (").concat(&count(w.staged)).concat(" staged, ").concat(
                    &count(w.modified),
                ).concat(" modified, ").concat(&count(w.untracked)).concat(" untracked)");
                let ghost l = line@;
                lines.push(line);
                assert(views(lines@) =~= held.push(l));
            }
        }
        i += 1;
    }
    assert(names.take(branches.len() as int) =~= names);
    assert(views(lines@).len() == lines.len());
    if lines.len() > 0 {
        return Err(
            EzError::UserMessage(
                String::from_str(
                    "cannot fold while the affected worktree fleet is dirty:\n  - ",
                ).concat(&join(&lines, "\n  - ")).concat(
                    "\n  → Commit or stash those worktrees, then retry",
                ),
            ),
        );
    }
    Ok(())
}

/// Why a descendant does not stand on the tip of its parent, if so.
pub open spec fn drift(s: StackView, g: GitView, b: Seq<char>) -> Option<Seq<char>> {
    let meta = s.branches[b];
    if !g.has_branch(b) || !g.has_branch(meta.parent) {
        Some(
            "descendant `"@ + b + "` or its parent `"@ + meta.parent
                + "` is missing locally\n  → Re-adopt the stack before folding"@,
        )
    } else if g.tip(meta.parent) is None || meta.parent_head != g.tip(meta.parent)->0
        || !g.ancestor(g.tip(meta.parent)->0, b) {
        Some(
            "descendant `"@ + b + "` is not fully restacked on `"@ + meta.parent
                + "`\n  → Run `ez restack` from the stack, then retry the fold"@,
        )
    } else {
        None
    }
}

/// What is wrong with the first of `names` that does not stand on the tip of its parent, or has
/// no record, if there is one.
pub open spec fn first_drift(s: StackView, g: GitView, names: Seq<Seq<char>>) -> Option<ErrorView>
    decreases names.len(),
{
    if names.len() == 0 {
        None
    } else {
        match first_drift(s, g, names.drop_last()) {
            Some(e) => Some(e),
            None => if !s.managed(names.last()) {
                Some(ErrorView::BranchNotInStack(names.last()))
            } else {
                match drift(s, g, names.last()) {
                    Some(text) => Some(ErrorView::UserMessage(text)),
                    None => None,
                }
            },
        }
    }
}

/// What is wrong with one of the first names is wrong with all of them.
proof fn lemma_first_drift(s: StackView, g: GitView, names: Seq<Seq<char>>, n: int)
    requires
        0 <= n <= names.len(),
        first_drift(s, g, names.take(n)) is Some,
    ensures
        first_drift(s, g, names) == first_drift(s, g, names.take(n)),
    decreases names.len() - n,
{
    if n < names.len() {
        assert(names.take(n + 1).drop_last() =~= names.take(n));
        lemma_first_drift(s, g, names, n + 1);
    } else {
        assert(names.take(n) =~= names);
    }
}

/// Whether every descendant stands on the tip of its parent; else what is wrong with the first
/// that does not.
pub fn ensure_fully_restacked(state: &StackState, git: &GitView, descendants: &Vec<String>) -> (r:
    Result<(), EzError>)
    ensures
        match r {
            Ok(_) => first_drift(state@, *git, views(descendants@)) is None,
            Err(e) => first_drift(state@, *git, views(descendants@)) == Some(e@),
        },
{
    let ghost names = views(descendants@);
    let mut i: usize = 0;
    assert(names.take(0) =~= Seq::<Seq<char>>::empty());
    while i < descendants.len()
        invariant
            i <= descendants.len(),
            names == views(descendants@),
            first_drift(state@, *git, names.take(i as int)) is None,
        decreases descendants.len() - i,
    {
        let b: &String = &descendants[i];
        let ghost next = names.take(i + 1);
        assert(next.drop_last() =~= names.take(i as int));
        assert(next.last() == b@);
        let ghost d = first_drift(state@, *git, next);
        proof {
            if d is Some {
                lemma_first_drift(state@, *git, names, i + 1);
            }
        }
        let meta = match state.get_branch(b) {
            Ok(m) => m,
            Err(e) => {
                return Err(e);
            },
        };
        if !git.branch_exists(b) || !git.branch_exists(&meta.parent) {
            let text: String = String::from_str("descendant `").concat(b).concat(
                "` or its parent `",
            ).concat(&meta.parent).concat(
                "` is missing locally\n  → Re-adopt the stack before folding",
            );
            assert(d == Some(ErrorView::UserMessage(text@)));
            return Err(EzError::UserMessage(text));
        }
        let current: bool = match git.rev_parse(&meta.parent) {
            Some(tip) => same(&meta.parent_head, &tip) && git.is_ancestor(&tip, b),
            None => false,
        };
        if !current {
            let text: String = String::from_str("descendant `").concat(b).concat(
                "` is not fully restacked on `",
            ).concat(&meta.parent).concat(
                "`\n  → Run `ez restack` from the stack, then retry the fold",
            );
            assert(d == Some(ErrorView::UserMessage(text@)));
            return Err(EzError::UserMessage(text));
        }
        i += 1;
    }
    assert(names.take(descendants.len() as int) =~= names);
    Ok(())
}

/// Why `target` cannot be folded, before any worktree is looked at, if so.
pub open spec fn start_fault(s: StackView, g: GitView, target: Seq<char>) -> Option<ErrorView> {
    if target == s.trunk {
        Some(ErrorView::OnTrunk)
    } else if !s.managed(target) {
        Some(ErrorView::BranchNotInStack(target))
    } else if !g.has_branch(target) {
        Some(
            ErrorView::UserMessage(
                "local branch `"@ + target + "` is missing\n  → Run `ez adopt "@ + target
                    + "` to rehydrate it before folding"@,
            ),
        )
    } else if !g.has_branch(s.branches[target].parent) {
        Some(
            ErrorView::UserMessage(
                "parent branch `"@ + s.branches[target].parent
                    + "` is missing\n  → Restore or re-adopt the parent before folding `"@ + target
                    + "`"@,
            ),
        )
    } else {
        None
    }
}

/// What is said where the branch is checked out in the main worktree.
pub open spec fn main_text(target: Seq<char>, trunk: Seq<char>) -> Seq<char> {
    "`"@ + target
        + "` is checked out in the main worktree and cannot be removed safely\n  → Switch the main worktree to `"@
        + trunk + "` or materialize `"@ + target + "` as a linked worktree first"@
}

/// What is said where worktrees hold changes.
pub open spec fn fleet_text(lines: Seq<Seq<char>>) -> Seq<char> {
    "cannot fold while the affected worktree fleet is dirty:\n  - "@ + joined(lines, "\n  - "@)
        + "\n  → Commit or stash those worktrees, then retry"@
}

/// Why `target` cannot be folded into its parent, if so: the first of all that must hold.
pub open spec fn run_fault(
    s: StackView,
    g: GitView,
    target: Seq<char>,
    in_main_worktree: bool,
    worktrees: Map<Seq<char>, WorktreeStatus>,
) -> Option<ErrorView> {
    let parent = s.branches[target].parent;
    let above = topo(s.branches, target);
    let lines = dirty_lines(worktrees, touched(target, parent, above));
    if start_fault(s, g, target) is Some {
        start_fault(s, g, target)
    } else if parent == s.trunk {
        Some(
            ErrorView::UserMessage(
                "`"@ + target
                    + "` is the bottom stack layer; folding it would move local trunk\n  → Use `ez merge --local` when local trunk landing is available"@,
            ),
        )
    } else if s.branches[target].pr_number is Some {
        Some(
            ErrorView::UserMessage(
                "`"@ + target
                    + "` already has a pull request; local fold currently supports PR-less layers only\n  → Merge the PR, or remove its PR association before folding"@,
            ),
        )
    } else if !g.ancestor(parent, target) {
        Some(
            ErrorView::UserMessage(
                "`"@ + target + "` no longer contains the current tip of parent `"@ + parent
                    + "`\n  → Run `ez restack`, then retry the fold"@,
            ),
        )
    } else if in_main_worktree {
        Some(ErrorView::UserMessage(main_text(target, s.trunk)))
    } else if lines.len() > 0 {
        Some(ErrorView::UserMessage(fleet_text(lines)))
    } else {
        first_drift(s, g, above)
    }
}

/// What `target` is to be folded into, if it can be: nothing is changed before all of this holds.
pub fn run(
    state: &StackState,
    git: &GitView,
    target: &str,
    target_in_main_worktree: bool,
    worktrees: &NameMap<WorktreeStatus>,
) -> (r: Result<String, EzError>)
    ensures
        match r {
            Ok(parent) => run_fault(
                state@,
                *git,
                target@,
                target_in_main_worktree,
                worktrees@,
            ) is None && parent@ == state@.branches[target@].parent,
            Err(e) => run_fault(
                state@,
                *git,
                target@,
                target_in_main_worktree,
                worktrees@,
            ) == Some(e@),
        },
{
    if state.is_trunk(target) {
        return Err(EzError::OnTrunk);
    }
    if !state.is_managed(target) {
        return Err(EzError::BranchNotInStack(target.to_owned()));
    }
    if !git.branch_exists(target) {
        return Err(
            EzError::UserMessage(
                String::from_str("local branch `").concat(target).concat(
                    "` is missing\n  → Run `ez adopt ",
                ).concat(target).concat("` to rehydrate it before folding"),
            ),
        );
    }
    let meta = match state.get_branch(target) {
        Ok(m) => m,
        Err(e) => {
            return Err(e);
        },
    };
    let parent: String = meta.parent.clone();
    if !git.branch_exists(&parent) {
        return Err(
            EzError::UserMessage(
                String::from_str("parent branch `").concat(&parent).concat(
                    "` is missing\n  → Restore or re-adopt the parent before folding `",
                ).concat(target).concat("`"),
            ),
        );
    }
    let input = FoldValidationInput {
        target: target.to_owned(),
        parent: parent.clone(),
        trunk: state.trunk.clone(),
        pr_number: meta.pr_number,
        parent_is_ancestor: git.is_ancestor(&parent, target),
    };
    if let Err(e) = validate_fold_input(&input) {
        return Err(e);
    }
    if target_in_main_worktree {
        return Err(
            EzError::UserMessage(
                String::from_str("`").concat(target).concat(
                    "` is checked out in the main worktree and cannot be removed safely\n  → Switch the main worktree to `",
                ).concat(&state.trunk).concat("` or materialize `").concat(target).concat(
                    "` as a linked worktree first",
                ),
            ),
        );
    }
    let descendants: Vec<String> = state.descendants_topo(target);
    if let Err(e) = ensure_clean_worktree_fleet(target, &parent, &descendants, worktrees) {
        return Err(e);
    }
    if let Err(e) = ensure_fully_restacked(state, git, &descendants) {
        return Err(e);
    }
    Ok(parent)
}

/// Whether two paths, with links already resolved, name the same place.
pub fn same_path(left: &str, right: &str) -> (r: bool)
    ensures
        r == (path_within(left@, right@) && path_within(right@, left@)),
{
    within_path(left, right) && within_path(right, left)
}

/// What is said of a parent worktree that no longer stands at the folded tip.
pub open spec fn moved_text(path: Seq<char>, current: Seq<char>, target_sha: Seq<char>) -> Seq<
    char,
> {
    "parent worktree `"@ + path + "` moved to "@ + current + "; expected folded tip "@ + target_sha
}

/// What is wrong with a parent worktree that is to be set back, if anything: it must still stand
/// at the folded tip.
pub fn parent_moved(path: &str, current: &str, target_sha: &str) -> (r: Option<String>)
    ensures
        opt_view(r) == if current@ != target_sha@ {
            Some(moved_text(path@, current@, target_sha@))
        } else {
            None
        },
{
    if same(current, target_sha) {
        None
    } else {
        Some(
            String::from_str("parent worktree `").concat(path).concat("` moved to ").concat(
                current,
            ).concat("; expected folded tip ").concat(target_sha),
        )
    }
}

/// Nothing is reported of a fleet exactly where none of its branches has a worktree with changes
/// that are not committed.
pub proof fn law_clean_fleet_has_no_lines(
    m: Map<Seq<char>, WorktreeStatus>,
    names: Seq<Seq<char>>,
)
    ensures
        dirty_lines(m, names).len() == 0 <==> forall|i: int|
            0 <= i < names.len() && m.contains_key(#[trigger] names[i]) ==> m[names[i]].staged == 0
                && m[names[i]].modified == 0 && m[names[i]].untracked == 0,
    decreases names.len(),
{
    if names.len() > 0 {
        let low = names.drop_last();
        law_clean_fleet_has_no_lines(m, low);
        if dirty_lines(m, names).len() == 0 {
            assert forall|i: int|
                0 <= i < names.len() && m.contains_key(#[trigger] names[i]) implies m[names[i]].staged
                == 0 && m[names[i]].modified == 0 && m[names[i]].untracked == 0 by {
                if i < low.len() {
                    assert(low[i] == names[i]);
                }
            }
        } else if dirty_lines(m, low).len() > 0 {
            let i = choose|i: int|
                0 <= i < low.len() && m.contains_key(#[trigger] low[i]) && !(m[low[i]].staged == 0
                    && m[low[i]].modified == 0 && m[low[i]].untracked == 0);
            assert(names[i] == low[i]);
        } else {
            assert(names[names.len() - 1] == names.last());
        }
    }
}

/// Descendants hold exactly where each is recorded, git has it and its parent, and it stands on
/// the recorded tip of that.
pub proof fn law_no_drift_means_restacked(s: StackView, g: GitView, names: Seq<Seq<char>>)
    ensures
        first_drift(s, g, names) is None <==> forall|i: int|
            0 <= i < names.len() ==> {
                let b = #[trigger] names[i];
                &&& s.branches.contains_key(b)
                &&& g.has_branch(b)
                &&& g.has_branch(s.branches[b].parent)
                &&& g.tip(s.branches[b].parent) == Some(s.branches[b].parent_head)
                &&& g.ancestor(s.branches[b].parent_head, b)
            },
    decreases names.len(),
{
    if names.len() > 0 {
        let low = names.drop_last();
        law_no_drift_means_restacked(s, g, low);
        if first_drift(s, g, low) is Some {
            let i = choose|i: int|
                0 <= i < low.len() && !({
                    let b = #[trigger] low[i];
                    &&& s.branches.contains_key(b)
                    &&& g.has_branch(b)
                    &&& g.has_branch(s.branches[b].parent)
                    &&& g.tip(s.branches[b].parent) == Some(s.branches[b].parent_head)
                    &&& g.ancestor(s.branches[b].parent_head, b)
                });
            assert(names[i] == low[i]);
        } else if first_drift(s, g, names) is None {
            assert forall|i: int| 0 <= i < names.len() implies {
                let b = #[trigger] names[i];
                &&& s.branches.contains_key(b)
                &&& g.has_branch(b)
                &&& g.has_branch(s.branches[b].parent)
                &&& g.tip(s.branches[b].parent) == Some(s.branches[b].parent_head)
                &&& g.ancestor(s.branches[b].parent_head, b)
            } by {
                if i < low.len() {
                    assert(low[i] == names[i]);
                }
            }
        } else {
            assert(names[names.len() - 1] == names.last());
        }
    }
}

/// A branch can be folded exactly where it is recorded, is neither the trunk nor the lowest layer,
/// has no pull request, holds its parent, is not checked out in the main worktree, no worktree of
/// it, its parent or its descendants holds changes, and its descendants are all restacked.
pub proof fn law_fold_is_refused_for_cause(
    s: StackView,
    g: GitView,
    target: Seq<char>,
    in_main: bool,
    worktrees: Map<Seq<char>, WorktreeStatus>,
    above: Seq<Seq<char>>,
)
    requires
        crate::stack::breadth_first(s.branches, target, above),
    ensures
        run_fault(s, g, target, in_main, worktrees) is None <==> {
            let parent = s.branches[target].parent;
            &&& target != s.trunk
            &&& s.branches.contains_key(target)
            &&& g.has_branch(target)
            &&& g.has_branch(parent)
            &&& parent != s.trunk
            &&& s.branches[target].pr_number is None
            &&& g.ancestor(parent, target)
            &&& !in_main
            &&& forall|b: Seq<char>| #[trigger]
                worktrees.contains_key(b) && (b == parent || b == target
                    || crate::stack::descends(s.branches, target, b)) ==> worktrees[b].staged == 0
                    && worktrees[b].modified == 0 && worktrees[b].untracked == 0
            &&& forall|b: Seq<char>|
                crate::stack::descends(s.branches, target, b) ==> #[trigger] g.has_branch(b)
                    && g.has_branch(s.branches[b].parent) && g.tip(s.branches[b].parent) == Some(
                    s.branches[b].parent_head,
                ) && g.ancestor(s.branches[b].parent_head, b)
        },
{
    let parent = s.branches[target].parent;
    crate::stack::lemma_topo_unique(s.branches, target, above);
    crate::stack::law_descendants_are_listed(s.branches, target, above);
    let all = (seq![parent, target] + above).to_set();
    let names = touched(target, parent, above);
    (seq![parent, target] + above).lemma_cardinality_of_set();
    crate::names::lemma_ranked_exists(all);
    assert forall|b: Seq<char>| #[trigger]
        names.contains(b) <==> b == parent || b == target || crate::stack::descends(
            s.branches,
            target,
            b,
        ) by {
        let list = seq![parent, target] + above;
        assert(names.contains(b) <==> list.contains(b));
        if list.contains(b) {
            let i = choose|i: int| 0 <= i < list.len() && list[i] == b;
            if i >= 2 {
                assert(above[i - 2] == b);
                assert(above.contains(b));
            }
        }
        if b == parent {
            assert(list[0] == b);
        }
        if b == target {
            assert(list[1] == b);
        }
        if above.contains(b) {
            let i = choose|i: int| 0 <= i < above.len() && above[i] == b;
            assert(list[i + 2] == b);
        }
    }
    law_clean_fleet_has_no_lines(worktrees, names);
    law_no_drift_means_restacked(s, g, above);
    let clean = forall|b: Seq<char>| #[trigger]
        worktrees.contains_key(b) && (b == parent || b == target || crate::stack::descends(
            s.branches,
            target,
            b,
        )) ==> worktrees[b].staged == 0 && worktrees[b].modified == 0 && worktrees[b].untracked
            == 0;
    if dirty_lines(worktrees, names).len() == 0 {
        assert forall|b: Seq<char>| #[trigger]
            worktrees.contains_key(b) && (b == parent || b == target || crate::stack::descends(
                s.branches,
                target,
                b,
            )) implies worktrees[b].staged == 0 && worktrees[b].modified == 0
            && worktrees[b].untracked == 0 by {
            assert(names.contains(b));
            let i = choose|i: int| 0 <= i < names.len() && names[i] == b;
            assert(worktrees.contains_key(names[i]));
        }
    } else if clean {
        assert forall|i: int|
            0 <= i < names.len() && worktrees.contains_key(#[trigger] names[i]) implies (
        worktrees[names[i]].staged == 0 && worktrees[names[i]].modified == 0
            && worktrees[names[i]].untracked == 0) by {
            assert(names.contains(names[i]));
        }
    }
    let held = forall|b: Seq<char>|
        crate::stack::descends(s.branches, target, b) ==> #[trigger] g.has_branch(b)
            && g.has_branch(s.branches[b].parent) && g.tip(s.branches[b].parent) == Some(
            s.branches[b].parent_head,
        ) && g.ancestor(s.branches[b].parent_head, b);
    if first_drift(s, g, above) is None {
        assert forall|b: Seq<char>| crate::stack::descends(s.branches, target, b) implies (
        #[trigger] g.has_branch(b) && g.has_branch(s.branches[b].parent) && g.tip(
            s.branches[b].parent,
        ) == Some(s.branches[b].parent_head) && g.ancestor(s.branches[b].parent_head, b)) by {
            assert(above.contains(b));
            let i = choose|i: int| 0 <= i < above.len() && above[i] == b;
            assert(s.branches.contains_key(above[i]));
        }
    } else if held {
        assert forall|i: int| 0 <= i < above.len() implies {
            let b = #[trigger] above[i];
            &&& s.branches.contains_key(b)
            &&& g.has_branch(b)
            &&& g.has_branch(s.branches[b].parent)
            &&& g.tip(s.branches[b].parent) == Some(s.branches[b].parent_head)
            &&& g.ancestor(s.branches[b].parent_head, b)
        } by {
            assert(above.contains(above[i]));
        }
    }
}

/// A fold is valid exactly of a layer that is not the trunk, does not stand on it, has no pull
/// request and holds its parent's tip.
pub proof fn law_fold_needs_a_plain_layer(i: FoldValidationInput)
    ensures
        fold_fault(i) is None <==> i.target@ != i.trunk@ && i.parent@ != i.trunk@
            && i.pr_number is None && i.parent_is_ancestor,
        i.target@ == i.trunk@ ==> fold_fault(i) == Some(ErrorView::OnTrunk),
{
}

} // verus!
