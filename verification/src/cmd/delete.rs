//! Deleting a branch from the stack.

use crate::branch_map::is_child;
use crate::cmd::sync::{update_reparented_pr_bases, update_views, updates_for, PrBaseUpdate, UpdateView};
use crate::error::{ErrorView, EzError};
use crate::git::WorktreeInfo;
use crate::json::{no_fields, number_list, Json, JsonObject, JsonView};
use crate::names::ranks;
use crate::stack::{children, forgotten, StackState};
use crate::text::{begins, opt_view, same, starts_with, views};
use vstd::prelude::*;
use vstd::string::*;

verus! {

/// How a branch is deleted.
#[derive(Debug)]
pub enum DeleteRoute {
    /// Together with its linked worktree at that path, which is locked for that reason, if at all.
    WithWorktree { path: String, locked_reason: Option<String> },
    /// By itself.
    BranchOnly,
}

/// Whether worktree `i` is the first linked one of `target`.
pub open spec fn linked_at(s: Seq<WorktreeInfo>, target: Seq<char>, i: int) -> bool {
    &&& 0 <= i < s.len()
    &&& linked(s, target, i)
    &&& forall|j: int| 0 <= j < i ==> !linked(s, target, j)
}

/// Whether worktree `i` belongs to `target` and is not the main one, which comes first.
pub open spec fn linked(s: Seq<WorktreeInfo>, target: Seq<char>, i: int) -> bool {
    opt_view(s[i].branch) == Some(target) && s[i].path@ != s[0].path@
}

/// How `target` is deleted, if it can be.
pub fn run(state: &StackState, target: &str, worktrees: &Vec<WorktreeInfo>) -> (r: Result<
    DeleteRoute,
    EzError,
>)
    ensures
        match r {
            Ok(DeleteRoute::WithWorktree { path, locked_reason }) => {
                &&& target@ != state@.trunk
                &&& state@.managed(target@)
                &&& exists|i: int| #[trigger]
                    linked_at(worktrees@, target@, i) && path@ == worktrees@[i].path@
                        && opt_view(locked_reason) == opt_view(worktrees@[i].locked_reason)
            },
            Ok(DeleteRoute::BranchOnly) => {
                &&& target@ != state@.trunk
                &&& state@.managed(target@)
                &&& worktrees.len() > 0
                &&& forall|i: int|
                    0 <= i < worktrees.len() ==> !#[trigger] linked(worktrees@, target@, i)
            },
            Err(e) => if target@ == state@.trunk {
                e@ == ErrorView::OnTrunk
            } else if !state@.managed(target@) {
                e@ == ErrorView::BranchNotInStack(target@)
            } else {
                worktrees.len() == 0 && e@ == ErrorView::Other(
                    "could not determine main worktree root"@,
                )
            },
        },
{
    if state.is_trunk(target) {
        return Err(EzError::OnTrunk);
    }
    if !state.is_managed(target) {
        return Err(EzError::BranchNotInStack(target.to_owned()));
    }
    if worktrees.len() == 0 {
        return Err(EzError::Other(String::from_str("could not determine main worktree root")));
    }
    let mut i: usize = 0;
    while i < worktrees.len()
        invariant
            i <= worktrees.len(),
            worktrees.len() > 0,
            target@ != state@.trunk,
            state@.managed(target@),
            forall|j: int| 0 <= j < i ==> !#[trigger] linked(worktrees@, target@, j),
        decreases worktrees.len() - i,
    {
        let w: &WorktreeInfo = &worktrees[i];
        let here: bool = match &w.branch {
            Some(b) => same(b, target),
            None => false,
        };
        if here && !same(&w.path, &worktrees[0].path) {
            assert(linked_at(worktrees@, target@, i as int));
            return Ok(
                DeleteRoute::WithWorktree {
                    path: w.path.clone(),
                    locked_reason: crate::text::copy_opt(&w.locked_reason),
                },
            );
        }
        i += 1;
    }
    Ok(DeleteRoute::BranchOnly)
}

/// Whether a directory is a worktree or lies inside it, by the text of the two paths.
pub fn inside_worktree_path(current_dir: &str, worktree_path: &str) -> (r: bool)
    ensures
        r == (current_dir@ == worktree_path@ || begins(current_dir@, worktree_path@ + "/"@)),
{
    same(current_dir, worktree_path) || starts_with(
        current_dir,
        &worktree_path.to_owned().concat("/"),
    )
}

/// What is said before the worktree that the user is in is deleted.
pub fn inside_worktree_delete_warning(target: &str) -> (r: String)
    ensures
        r@ == "You are inside the worktree for `"@ + target@
            + "` that you are about to delete\n  → Re-run with `--yes` to skip this prompt"@,
{
    String::from_str("You are inside the worktree for `").concat(target).concat(
        "` that you are about to delete\n  → Re-run with `--yes` to skip this prompt",
    )
}

/// What is said once the user declined.
pub fn inside_worktree_delete_cancelled(target: &str) -> (r: String)
    ensures
        r@ == "Cancelled\n  → Re-run with `--yes`: `ez worktree delete "@ + target@ + " --yes`"@,
{
    String::from_str("Cancelled\n  → Re-run with `--yes`: `ez worktree delete ").concat(
        target,
    ).concat(" --yes`")
}

/// What is wrong with a registered worktree that is to be removed, if anything.
pub fn worktree_fault(wt_path: &str, exists_on_disk: bool, has_git_file: bool) -> (r: Option<String>)
    ensures
        opt_view(r) == if !exists_on_disk {
            Some(
                "refuse to remove `"@ + wt_path@
                    + "` because the registered worktree path is missing\n  → Run `git worktree prune`, then retry"@,
            )
        } else if !has_git_file {
            Some(
                "refuse to remove `"@ + wt_path@
                    + "` because it is no longer a valid Git worktree\n  → Move or remove the directory manually after preserving any user files"@,
            )
        } else {
            None
        },
{
    if !exists_on_disk {
        Some(
            String::from_str("refuse to remove `").concat(wt_path).concat(
                "` because the registered worktree path is missing\n  → Run `git worktree prune`, then retry",
            ),
        )
    } else if !has_git_file {
        Some(
            String::from_str("refuse to remove `").concat(wt_path).concat(
                "` because it is no longer a valid Git worktree\n  → Move or remove the directory manually after preserving any user files",
            ),
        )
    } else {
        None
    }
}

/// What is said where a branch is checked out in a worktree that is not its own.
pub fn checked_out_elsewhere(target: &str, wt_path: &str) -> (r: EzError)
    ensures
        r@ == ErrorView::UserMessage(
            "branch `"@ + target@ + "` is checked out in worktree `"@ + wt_path@
                + "`\n  → Run `ez delete "@ + target@ + "` to remove it"@,
        ),
{
    EzError::UserMessage(
        String::from_str("branch `").concat(target).concat(
            "` is checked out in worktree `",
        ).concat(wt_path).concat("`\n  → Run `ez delete ").concat(target).concat(
            "` to remove it",
        ),
    )
}

/// Whether entry `i` is the first worktree registered at `path`.
pub open spec fn registered_at(s: Seq<WorktreeInfo>, path: Seq<char>, i: int) -> bool {
    &&& 0 <= i < s.len()
    &&& s[i].path@ == path
    &&& forall|j: int| 0 <= j < i ==> (#[trigger] s[j]).path@ != path
}

/// The place of the first worktree registered at `path`.
pub fn find_registered(worktrees: &Vec<WorktreeInfo>, path: &str) -> (r: Option<usize>)
    ensures
        match r {
            Some(i) => registered_at(worktrees@, path@, i as int),
            None => forall|j: int|
                0 <= j < worktrees.len() ==> (#[trigger] worktrees@[j]).path@ != path@,
        },
{
    let mut i: usize = 0;
    while i < worktrees.len()
        invariant
            i <= worktrees.len(),
            forall|j: int| 0 <= j < i ==> (#[trigger] worktrees@[j]).path@ != path@,
        decreases worktrees.len() - i,
    {
        if same(&worktrees[i].path, path) {
            return Some(i);
        }
        i += 1;
    }
    None
}

/// An optional text, or what stands for its absence.
pub open spec fn text_or(s: Option<String>, other: Seq<char>) -> Seq<char> {
    match s {
        Some(t) => t@,
        None => other,
    }
}

/// What is said where a worktree is no longer the claimed one.
pub open spec fn changed_text(
    path: Seq<char>,
    expected_branch: Seq<char>,
    claim: Seq<char>,
    w: WorktreeInfo,
) -> Seq<char> {
    "worktree ownership changed at `"@ + path + "`: expected `"@ + expected_branch
        + "` with deletion claim `"@ + claim + "`, found `"@ + text_or(
        w.branch,
        "<detached HEAD>"@,
    ) + "` with lock `"@ + text_or(w.locked_reason, "<unlocked>"@)
        + "`\n  → No replacement worktree was removed; inspect `git worktree list` and retry"@
}

/// Whether the worktree at `path` still holds the branch, and is locked by the claim.
pub fn verify_delete_claim(
    worktrees: &Vec<WorktreeInfo>,
    path: &str,
    expected_branch: &str,
    claim: &str,
) -> (r: Result<(), EzError>)
    ensures
        match r {
            Ok(_) => exists|i: int| #[trigger]
                registered_at(worktrees@, path@, i) && opt_view(worktrees@[i].branch) == Some(
                    expected_branch@,
                ) && opt_view(worktrees@[i].locked_reason) == Some(claim@),
            Err(e) => {
                ||| (e@ == ErrorView::Other(
                    "worktree ownership changed at `"@ + path@ + "`: expected `"@
                        + expected_branch@ + "`, but the path is no longer registered"@,
                ) && forall|j: int|
                    0 <= j < worktrees.len() ==> (#[trigger] worktrees@[j]).path@ != path@)
                ||| exists|i: int| #[trigger]
                    registered_at(worktrees@, path@, i) && !(opt_view(worktrees@[i].branch)
                        == Some(expected_branch@) && opt_view(worktrees@[i].locked_reason) == Some(
                        claim@,
                    )) && e@ == ErrorView::Other(
                        changed_text(path@, expected_branch@, claim@, worktrees@[i]),
                    )
            },
        },
{
    match find_registered(worktrees, path) {
        None => Err(
            EzError::Other(
                String::from_str("worktree ownership changed at `").concat(path).concat(
                    "`: expected `",
                ).concat(expected_branch).concat("`, but the path is no longer registered"),
            ),
        ),
        Some(i) => {
            let w: &WorktreeInfo = &worktrees[i];
            assert(registered_at(worktrees@, path@, i as int));
            let branch_kept: bool = match &w.branch {
                Some(b) => same(b, expected_branch),
                None => false,
            };
            let lock_kept: bool = match &w.locked_reason {
                Some(l) => same(l, claim),
                None => false,
            };
            if branch_kept && lock_kept {
                return Ok(());
            }
            let actual_branch: &str = match &w.branch {
                Some(b) => b,
                None => "<detached HEAD>",
            };
            let actual_lock: &str = match &w.locked_reason {
                Some(l) => l,
                None => "<unlocked>",
            };
            Err(
                EzError::Other(
                    String::from_str("worktree ownership changed at `").concat(path).concat(
                        "`: expected `",
                    ).concat(expected_branch).concat("` with deletion claim `").concat(
                        claim,
                    ).concat("`, found `").concat(actual_branch).concat("` with lock `").concat(
                        actual_lock,
                    ).concat(
                        "`\n  → No replacement worktree was removed; inspect `git worktree list` and retry",
                    ),
                ),
            )
        },
    }
}

/// Forgets the branch, its children stacked on its parent. Returns the children by name, and the
/// pull requests whose bases are to follow, where the deleted branch had one itself.
pub fn record_delete(state: &mut StackState, target: &str) -> (r: Result<
    (Vec<String>, Vec<PrBaseUpdate>),
    EzError,
>)
    ensures
        match r {
            Ok((kids, updates)) => {
                let s = old(state)@;
                let parent = s.branches[target@].parent;
                &&& s.managed(target@)
                &&& final(state)@ == s.with_branches(forgotten(s.branches, target@, parent))
                &&& ranks(views(kids@), children(s.branches, target@))
                &&& update_views(updates@) == if s.branches[target@].pr_number is Some {
                    updates_for(
                        s.with_branches(
                            crate::stack::reparented(
                                s.branches,
                                children(s.branches, target@),
                                parent,
                            ),
                        ),
                        views(kids@),
                    )
                } else {
                    Seq::empty()
                }
            },
            Err(e) => !old(state)@.managed(target@) && final(state)@ == old(state)@ && e@
                == ErrorView::BranchNotInStack(target@),
        },
{
    let ghost s = state@;
    let parent: String = match state.branches.get(target) {
        Some(meta) => meta.parent.clone(),
        None => {
            return Err(EzError::BranchNotInStack(target.to_owned()));
        },
    };
    let has_pr: bool = match state.branches.get(target) {
        Some(meta) => meta.pr_number.is_some(),
        None => false,
    };
    let kids: Vec<String> = state.reparent_children_preserving_parent_head(target, &parent);
    proof {
        assert forall|k: Seq<char>| #[trigger]
            views(kids@).contains(k) <==> children(s.branches, target@).contains(k) by {
            assert(views(kids@).contains(k) <==> is_child(s.branches, target@, k));
        }
    }
    let updates: Vec<PrBaseUpdate> = if has_pr {
        update_reparented_pr_bases(state, &kids)
    } else {
        Vec::new()
    };
    assert(!has_pr ==> update_views(updates@) =~= Seq::<UpdateView>::empty());
    state.remove_branch(target);
    Ok((kids, updates))
}

/// The receipt for a branch deleted by itself.
pub fn delete_receipt(target: &str, parent: &str, reparented_children: usize) -> (r: Json)
    ensures
        r@ == JsonView::Object(
            no_fields().insert("cmd"@, JsonView::Text("delete"@)).insert(
                "branch"@,
                JsonView::Text(target@),
            ).insert("parent"@, JsonView::Text(parent@)).insert(
                "reparented_children"@,
                JsonView::Number(reparented_children as u64),
            ),
        ),
{
    JsonObject::new().field("cmd", Json::text("delete")).field("branch", Json::text(target)).field(
        "parent",
        Json::text(parent),
    ).field("reparented_children", Json::count(reparented_children)).done()
}

/// The receipt for a branch deleted with its worktree.
pub open spec fn worktree_receipt(
    target: Seq<char>,
    parent: Seq<char>,
    port: u64,
    killed: Seq<u64>,
    worktree: Seq<char>,
    reparented_children: nat,
) -> JsonView {
    JsonView::Object(
        no_fields().insert("cmd"@, JsonView::Text("delete"@)).insert(
            "branch"@,
            JsonView::Text(target),
        ).insert("parent"@, JsonView::Text(parent)).insert("dev_port"@, JsonView::Number(port)).insert(
            "killed_pids"@,
            number_list(killed),
        ).insert("worktree"@, JsonView::Text(worktree)).insert(
            "reparented_children"@,
            JsonView::Number(reparented_children as u64),
        ),
    )
}

/// The receipt for a branch deleted with its worktree.
pub fn delete_worktree_receipt(
    target: &str,
    parent: &str,
    port: u64,
    killed: &Vec<u64>,
    worktree: &str,
    reparented_children: usize,
) -> (r: Json)
    ensures
        r@ == worktree_receipt(
            target@,
            parent@,
            port,
            killed@,
            worktree@,
            reparented_children as nat,
        ),
{
    JsonObject::new().field("cmd", Json::text("delete")).field("branch", Json::text(target)).field(
        "parent",
        Json::text(parent),
    ).field("dev_port", Json::Number(port)).field("killed_pids", Json::numbers(killed)).field(
        "worktree",
        Json::text(worktree),
    ).field("reparented_children", Json::count(reparented_children)).done()
}

/// The linked worktree of a branch holds that branch and is not the main one; it is the first such.
pub proof fn law_linked_worktree_holds_the_branch(
    s: Seq<WorktreeInfo>,
    target: Seq<char>,
    i: int,
    j: int,
)
    requires
        linked_at(s, target, i),
    ensures
        0 < i < s.len(),
        s[i].branch is Some,
        s[i].branch->0@ == target,
        s[i].path@ != s[0].path@,
        0 <= j < i && s[j].branch is Some && s[j].branch->0@ == target ==> s[j].path@ == s[0].path@,
{
    if 0 <= j < i {
        assert(!linked(s, target, j));
    }
}

/// A receipt of a deletion names the branch, its parent and its worktree, what was stopped, and how
/// many children were handed on.
pub proof fn law_delete_receipt_tells_the_worktree(
    target: Seq<char>,
    parent: Seq<char>,
    port: u64,
    killed: Seq<u64>,
    worktree: Seq<char>,
    kids: nat,
)
    ensures
        worktree_receipt(target, parent, port, killed, worktree, kids) matches JsonView::Object(m) && {
            &&& m["branch"@] == JsonView::Text(target)
            &&& m["parent"@] == JsonView::Text(parent)
            &&& m["dev_port"@] == JsonView::Number(port)
            &&& m["killed_pids"@] == number_list(killed)
            &&& m["worktree"@] == JsonView::Text(worktree)
            &&& m["reparented_children"@] == JsonView::Number(kids as u64)
        },
{
    reveal_strlit("cmd");
    reveal_strlit("branch");
    reveal_strlit("parent");
    reveal_strlit("dev_port");
    reveal_strlit("killed_pids");
    reveal_strlit("worktree");
    reveal_strlit("reparented_children");
    assert("cmd"@.len() == 3);
    assert("branch"@.len() == 6);
    assert("parent"@.len() == 6);
    assert("dev_port"@.len() == 8);
    assert("killed_pids"@.len() == 11);
    assert("worktree"@.len() == 8);
    assert("reparented_children"@.len() == 19);
    assert("branch"@[0] == 'b');
    assert("parent"@[0] == 'p');
    assert("dev_port"@[0] == 'd');
    assert("worktree"@[0] == 'w');
}

/// A path is registered at the first worktree that is listed with it.
pub proof fn law_registered_path_is_the_first(
    s: Seq<WorktreeInfo>,
    path: Seq<char>,
    i: int,
    j: int,
)
    requires
        registered_at(s, path, i),
    ensures
        0 <= i < s.len(),
        s[i].path@ == path,
        0 <= j < s.len() && s[j].path@ == path ==> i <= j,
{
}

} // verus!
