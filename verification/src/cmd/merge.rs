//! Merging pull requests from the bottom of the stack.

use crate::branch_map::MetaView;
use crate::cmd::delete::inside_worktree_path;
use crate::cmd::fold::{dirty, WorktreeStatus};
use crate::error::{ErrorView, EzError};
use crate::github::{same_numbers, MergePrOutcome, NativeStackInfo};
use crate::json::{no_fields, number_list, text_list, text_or_null, Json, JsonObject, JsonView};
use crate::name_map::NameMap;
use crate::names::{rank_names, ranks};
use crate::stack::{fork_text, forks_at, lowest, Forest, StackState, StackView};
use crate::text::{begins, count, decimal, holds, join, joined, number, opt_view, views};
use vstd::prelude::*;
use vstd::string::*;

verus! {

/// A branch to be merged through its pull request.
#[derive(Debug)]
pub struct MergeTarget {
    pub branch: String,
    pub pr_number: u64,
}

/// The contents of a list of targets.
pub open spec fn target_views(s: Seq<MergeTarget>) -> Seq<(Seq<char>, u64)> {
    Seq::new(s.len(), |i: int| (s[i].branch@, s[i].pr_number))
}

/// The branches of targets.
pub open spec fn target_names(s: Seq<(Seq<char>, u64)>) -> Seq<Seq<char>> {
    Seq::new(s.len(), |i: int| s[i].0)
}

/// The pull requests of targets.
pub open spec fn target_prs(s: Seq<(Seq<char>, u64)>) -> Seq<u64> {
    Seq::new(s.len(), |i: int| s[i].1)
}

/// What is said of a branch without a pull request.
pub open spec fn no_pr_text(b: Seq<char>) -> Seq<char> {
    "Branch `"@ + b + "` has no associated PR — run `ez submit` first"@
}

/// Whether every branch of `names` is recorded with a pull request, which `targets` lists.
pub open spec fn targets_of(
    s: StackView,
    names: Seq<Seq<char>>,
    targets: Seq<(Seq<char>, u64)>,
) -> bool {
    &&& targets.len() == names.len()
    &&& forall|i: int|
        0 <= i < names.len() ==> s.managed(#[trigger] names[i]) && s.branches[names[i]].pr_number
            == Some(targets[i].1) && targets[i].0 == names[i]
}

/// Whether `e` tells of the first branch of `names` without a record or pull request.
pub open spec fn untargeted(s: StackView, names: Seq<Seq<char>>, e: ErrorView) -> bool {
    exists|i: int|
        {
            &&& 0 <= i < names.len()
            &&& e == if s.managed(#[trigger] names[i]) {
                ErrorView::UserMessage(no_pr_text(names[i]))
            } else {
                ErrorView::BranchNotInStack(names[i])
            }
            &&& s.managed(names[i]) ==> s.branches[names[i]].pr_number is None
            &&& forall|j: int|
                0 <= j < i ==> s.managed(#[trigger] names[j]) && s.branches[names[j]].pr_number is Some
        }
}

fn targets_for(state: &StackState, names: &Vec<String>) -> (r: Result<Vec<MergeTarget>, EzError>)
    ensures
        match r {
            Ok(v) => targets_of(state@, views(names@), target_views(v@)),
            Err(e) => untargeted(state@, views(names@), e@),
        },
{
    let ghost all = views(names@);
    let mut out: Vec<MergeTarget> = Vec::new();
    let mut i: usize = 0;
    while i < names.len()
        invariant
            i <= names.len(),
            all == views(names@),
            out.len() == i,
            forall|j: int|
                0 <= j < i ==> state@.managed(#[trigger] all[j]) && state@.branches[all[j]].pr_number
                    == Some(out@[j].pr_number) && out@[j].branch@ == all[j],
        decreases names.len() - i,
    {
        assert(all[i as int] == names@[i as int]@);
        match state.get_branch(&names[i]) {
            Err(e) => {
                return Err(e);
            },
            Ok(meta) => match meta.pr_number {
                Some(n) => {
                    out.push(MergeTarget { branch: names[i].clone(), pr_number: n });
                },
                None => {
                    let text: String = String::from_str("Branch `").concat(&names[i]).concat(
                        "` has no associated PR — run `ez submit` first",
                    );
                    return Err(EzError::UserMessage(text));
                },
            },
        }
        i += 1;
    }
    assert(target_views(out@).len() == all.len());
    Ok(out)
}

/// The targets of a merge: the lowest branch of the stack, or with `stack` the whole line of
/// branches from the bottom up. Each needs a pull request.
pub fn merge_targets(state: &StackState, current: &str, stack: bool) -> (r: Result<
    Vec<MergeTarget>,
    EzError,
>)
    ensures
        match r {
            Ok(v) => if current@ == state@.trunk || !state@.managed(current@) {
                false
            } else if stack {
                exists|line: Seq<Seq<char>>| #[trigger]
                    state@.is_line(current@, line) && targets_of(state@, line, target_views(v@))
            } else {
                targets_of(
                    state@,
                    seq![
                        lowest(
                            state@.branches,
                            state@.trunk,
                            current@,
                            state@.branches.len(),
                        ),
                    ],
                    target_views(v@),
                )
            },
            Err(e) => if current@ == state@.trunk {
                e@ == ErrorView::OnTrunk
            } else if !state@.managed(current@) {
                e@ == ErrorView::BranchNotInStack(current@)
            } else if stack {
                ||| exists|f: Seq<char>|
                    forks_at(state@.branches, current@, f, state@.branches.len()) && e@
                        == ErrorView::UserMessage(#[trigger] fork_text(f))
                ||| exists|line: Seq<Seq<char>>| #[trigger]
                    state@.is_line(current@, line) && untargeted(state@, line, e@)
            } else {
                untargeted(
                    state@,
                    seq![
                        lowest(
                            state@.branches,
                            state@.trunk,
                            current@,
                            state@.branches.len(),
                        ),
                    ],
                    e@,
                )
            },
        },
{
    if state.is_trunk(current) {
        return Err(EzError::OnTrunk);
    }
    if !state.is_managed(current) {
        return Err(EzError::BranchNotInStack(current.to_owned()));
    }
    if stack {
        match state.linear_stack(current) {
            Err(e) => Err(e),
            Ok(line) => {
                assert(state@.is_line(current@, views(line@)));
                targets_for(state, &line)
            },
        }
    } else {
        let mut names: Vec<String> = Vec::new();
        names.push(state.stack_bottom(current));
        assert(views(names@) =~= seq![
            lowest(state@.branches, state@.trunk, current@, state@.branches.len()),
        ]);
        targets_for(state, &names)
    }
}

/// What is wrong with a target's worktree, if anything: it must be left alone, or holds changes.
pub open spec fn worktree_problem(
    b: Seq<char>,
    guards: Map<Seq<char>, String>,
    worktrees: Map<Seq<char>, WorktreeStatus>,
) -> Option<ErrorView> {
    if !worktrees.contains_key(b) {
        None
    } else if guards.contains_key(b) {
        Some(ErrorView::Other(guards[b]@))
    } else if dirty(worktrees[b]) {
        let w = worktrees[b];
        Some(
            ErrorView::UserMessage(
                "Cannot merge `"@ + b + "` while linked worktree `"@ + w.path@
                    + "` has uncommitted changes (staged: "@ + decimal(w.staged as nat)
                    + ", modified: "@ + decimal(w.modified as nat) + ", untracked: "@ + decimal(
                    w.untracked as nat,
                ) + ")\n  → Commit/stash changes or clean the worktree, then retry"@,
            ),
        )
    } else {
        None
    }
}

/// Whether the worktrees of all targets may be removed: none is guarded, none holds changes.
pub fn preflight_clean_linked_worktrees(
    targets: &Vec<MergeTarget>,
    guards: &NameMap<String>,
    worktrees: &NameMap<WorktreeStatus>,
) -> (r: Result<(), EzError>)
    ensures
        match r {
            Ok(_) => forall|i: int|
                0 <= i < targets.len() ==> worktree_problem(
                    (#[trigger] targets@[i]).branch@,
                    guards@,
                    worktrees@,
                ) is None,
            Err(e) => exists|i: int|
                {
                    &&& 0 <= i < targets.len()
                    &&& worktree_problem(
                        (#[trigger] targets@[i]).branch@,
                        guards@,
                        worktrees@,
                    ) == Some(e@)
                    &&& forall|j: int|
                        0 <= j < i ==> worktree_problem(
                            (#[trigger] targets@[j]).branch@,
                            guards@,
                            worktrees@,
                        ) is None
                },
        },
{
    let mut i: usize = 0;
    while i < targets.len()
        invariant
            i <= targets.len(),
            forall|j: int|
                0 <= j < i ==> worktree_problem(
                    (#[trigger] targets@[j]).branch@,
                    guards@,
                    worktrees@,
                ) is None,
        decreases targets.len() - i,
    {
        let b: &String = &targets[i].branch;
        if let Some(w) = worktrees.get(b) {
            if let Some(text) = guards.get(b) {
                assert(worktree_problem(targets@[i as int].branch@, guards@, worktrees@) is Some);
                return Err(EzError::Other(text.clone()));
            }
            if w.staged > 0 || w.modified > 0 || w.untracked > 0 {
                let text: String = String::from_str("Cannot merge `").concat(b).concat(
                    "` while linked worktree `",
                ).concat(&w.path).concat("` has uncommitted changes (staged: ").concat(
                    &count(w.staged),
                ).concat(", modified: ").concat(&count(w.modified)).concat(
                    ", untracked: ",
                ).concat(&count(w.untracked)).concat(
                    ")\n  → Commit/stash changes or clean the worktree, then retry",
                );
                assert(worktree_problem(targets@[i as int].branch@, guards@, worktrees@) is Some);
                return Err(EzError::UserMessage(text));
            }
        }
        i += 1;
    }
    Ok(())
}

/// Whether GitHub links exactly the targets, in their order, so that they merge as one.
pub fn exact_native_stack_match(targets: &Vec<MergeTarget>, native: Option<&NativeStackInfo>) -> (r:
    bool)
    ensures
        r == (targets.len() >= 2 && native is Some && native->0.pull_requests@ == target_prs(
            target_views(targets@),
        )),
{
    if targets.len() < 2 {
        return false;
    }
    match native {
        None => false,
        Some(info) => {
            let mut numbers: Vec<u64> = Vec::new();
            let mut i: usize = 0;
            while i < targets.len()
                invariant
                    i <= targets.len(),
                    numbers.len() == i,
                    forall|j: int| 0 <= j < i ==> numbers@[j] == targets@[j].pr_number,
                decreases targets.len() - i,
            {
                numbers.push(targets[i].pr_number);
                i += 1;
            }
            assert(numbers@ =~= target_prs(target_views(targets@)));
            same_numbers(&info.pull_requests, &numbers)
        },
    }
}

/// Whether the process works inside the worktree of a target.
pub fn inside_any_target(
    targets: &Vec<MergeTarget>,
    worktrees: &NameMap<String>,
    current_dir: &str,
) -> (r: bool)
    ensures
        r == exists|i: int|
            0 <= i < targets.len() && worktrees@.contains_key((#[trigger] targets@[i]).branch@) && (
            current_dir@ == worktrees@[targets@[i].branch@]@ || begins(
                current_dir@,
                worktrees@[targets@[i].branch@]@ + "/"@,
            )),
{
    let mut i: usize = 0;
    while i < targets.len()
        invariant
            i <= targets.len(),
            forall|j: int|
                0 <= j < i ==> !(worktrees@.contains_key((#[trigger] targets@[j]).branch@) && (
                current_dir@ == worktrees@[targets@[j].branch@]@ || begins(
                    current_dir@,
                    worktrees@[targets@[j].branch@]@ + "/"@,
                ))),
        decreases targets.len() - i,
    {
        if let Some(path) = worktrees.get(&targets[i].branch) {
            if inside_worktree_path(current_dir, path) {
                assert(worktrees@.contains_key(targets@[i as int].branch@));
                return true;
            }
        }
        i += 1;
    }
    false
}

/// The branches without those of `gone`; what stood on one of those stands on the trunk.
pub open spec fn merged_out(m: Forest, gone: Seq<Seq<char>>, trunk: Seq<char>) -> Forest {
    Map::new(
        |k: Seq<char>| m.contains_key(k) && !gone.contains(k),
        |k: Seq<char>|
            if gone.contains(m[k].parent) {
                MetaView { parent: trunk, ..m[k] }
            } else {
                m[k]
            },
    )
}

/// The branches that stand on one of `gone` without being one of them.
pub open spec fn outer_children(m: Forest, gone: Seq<Seq<char>>) -> Set<Seq<char>> {
    Set::new(|k: Seq<char>| m.contains_key(k) && gone.contains(m[k].parent) && !gone.contains(k))
}

/// The branches with those that stand on one of `gone`, without being one of them, on the trunk.
pub open spec fn outer_moved(m: Forest, gone: Seq<Seq<char>>, trunk: Seq<char>) -> Forest {
    Map::new(
        |k: Seq<char>| m.contains_key(k),
        |k: Seq<char>|
            if outer_children(m, gone).contains(k) {
                MetaView { parent: trunk, ..m[k] }
            } else {
                m[k]
            },
    )
}

/// Stacks the branches on the targets, other than targets themselves, on the trunk, keeping the
/// parent commit that each was last stacked on. Returns them by name.
pub fn reparent_external_children_after_native_merge(
    state: &mut StackState,
    targets: &Vec<String>,
) -> (r: Vec<String>)
    ensures
        final(state)@ == old(state)@.with_branches(
            outer_moved(old(state)@.branches, views(targets@), old(state)@.trunk),
        ),
        ranks(views(r@), outer_children(old(state)@.branches, views(targets@))),
{
    let ghost before = state@;
    let ghost m = before.branches;
    let ghost gone = views(targets@);
    let ghost goal = outer_children(m, gone);
    let trunk: String = state.trunk.clone();
    let keys: Vec<String> = state.branches.keys();
    let ghost names = views(keys@);
    proof {
        crate::names::lemma_sorted_distinct(names);
    }
    let mut moved: Vec<String> = Vec::new();
    let mut i: usize = 0;
    while i < keys.len()
        invariant
            i <= keys.len(),
            before.trunk == trunk@,
            m == before.branches,
            gone == views(targets@),
            goal == outer_children(m, gone),
            names == views(keys@),
            names.no_duplicates(),
            forall|k: Seq<char>| #[trigger] names.contains(k) <==> m.contains_key(k),
            state@ == before.with_branches(state@.branches),
            forall|k: Seq<char>| #[trigger] state@.branches.contains_key(k) <==> m.contains_key(k),
            forall|k: Seq<char>| #[trigger]
                state@.branches.contains_key(k) ==> state@.branches[k] == if goal.contains(k)
                    && names.take(i as int).contains(k) {
                    MetaView { parent: trunk@, ..m[k] }
                } else {
                    m[k]
                },
            forall|k: Seq<char>| #[trigger]
                views(moved@).contains(k) <==> goal.contains(k) && names.take(i as int).contains(k),
        decreases keys.len() - i,
    {
        let ghost name = names[i as int];
        let ghost low = names.take(i as int);
        let ghost held = state@.branches;
        let ghost listed = views(moved@);
        proof {
            assert(name == keys@[i as int]@);
            assert(names.contains(name));
            assert(names.take(i + 1) =~= low.push(name));
            assert(!low.contains(name)) by {
                if low.contains(name) {
                    let z = choose|z: int| 0 <= z < low.len() && low[z] == name;
                    assert(names[z] == name);
                }
            }
            assert(m.contains_key(name));
            assert(state@.branches.contains_key(name));
            assert(held[name] == m[name]);
        }
        let mut outer: bool = false;
        let mut head: String = String::new();
        if let Some(meta) = state.branches.get(&keys[i]) {
            outer = holds(targets, &meta.parent) && !holds(targets, &keys[i]);
            head = meta.parent_head.clone();
        }
        assert(outer == goal.contains(name));
        if outer {
            let _ = state.set_parent(&keys[i], &trunk, &head);
            moved.push(keys[i].clone());
        }
        proof {
            let now = state@.branches;
            if outer {
                assert(views(moved@) =~= listed.push(name));
                assert((MetaView { parent: trunk@, parent_head: m[name].parent_head, ..m[name] })
                    =~= (MetaView { parent: trunk@, ..m[name] }));
            }
            assert forall|k: Seq<char>| #[trigger] now.contains_key(k) implies now[k] == (
            if goal.contains(k) && names.take(i + 1).contains(k) {
                MetaView { parent: trunk@, ..m[k] }
            } else {
                m[k]
            }) by {
                vstd::seq_lib::lemma_seq_contains_after_push(low, name, k);
                assert(held.contains_key(k));
            }
            assert forall|k: Seq<char>| #[trigger] views(moved@).contains(k) <==> goal.contains(k)
                && names.take(i + 1).contains(k) by {
                vstd::seq_lib::lemma_seq_contains_after_push(low, name, k);
                vstd::seq_lib::lemma_seq_contains_after_push(listed, name, k);
                assert(listed.contains(k) <==> goal.contains(k) && low.contains(k));
            }
        }
        i += 1;
    }
    proof {
        assert(names.take(keys.len() as int) =~= names);
        let want = outer_moved(m, gone, before.trunk);
        assert forall|k: Seq<char>| state@.branches.contains_key(k) implies state@.branches[k]
            == want[k] by {
            assert(names.contains(k));
        }
        assert(state@.branches =~= want);
        assert(views(moved@).to_set() =~= goal) by {
            assert forall|k: Seq<char>| views(moved@).to_set().contains(k) == goal.contains(k) by {
                assert(views(moved@).to_set().contains(k) == views(moved@).contains(k));
                if goal.contains(k) {
                    assert(names.contains(k));
                }
            }
        }
    }
    rank_names(&moved)
}

/// What a receipt calls the outcome of a merge.
pub open spec fn status_text(s: MergePrOutcome) -> Seq<char> {
    match s {
        MergePrOutcome::Merged => "merged"@,
        MergePrOutcome::Enqueued => "enqueued"@,
    }
}

fn status_word(s: MergePrOutcome) -> (r: &'static str)
    ensures
        r@ == status_text(s),
{
    match s {
        MergePrOutcome::Merged => "merged",
        MergePrOutcome::Enqueued => "enqueued",
    }
}

/// What came of the merge of one branch.
#[derive(Debug)]
pub struct MergeOutcome {
    pub branch: String,
    pub pr_number: u64,
    pub status: MergePrOutcome,
    pub restacked: usize,
    pub pushed: Vec<String>,
    pub worktree: Option<String>,
}

/// The receipt for the merge of one branch.
pub open spec fn merge_receipt(o: MergeOutcome, method: Seq<char>, stack: bool) -> JsonView {
    JsonView::Object(
        no_fields().insert("cmd"@, JsonView::Text("merge"@)).insert(
            "branch"@,
            JsonView::Text(o.branch@),
        ).insert("pr_number"@, JsonView::Number(o.pr_number)).insert(
            "status"@,
            JsonView::Text(status_text(o.status)),
        ).insert("method"@, JsonView::Text(method)).insert("stack"@, JsonView::Bool(stack)).insert(
            "restacked"@,
            JsonView::Number(o.restacked as u64),
        ).insert("pushed_branches"@, text_list(views(o.pushed@))).insert(
            "worktree"@,
            text_or_null(opt_view(o.worktree)),
        ),
    )
}

/// The receipt for the merge of one branch.
pub fn merge_receipt_value(outcome: &MergeOutcome, method: &str, stack: bool) -> (r: Json)
    ensures
        r@ == merge_receipt(*outcome, method@, stack),
{
    JsonObject::new().field("cmd", Json::text("merge")).field(
        "branch",
        Json::text(&outcome.branch),
    ).field("pr_number", Json::Number(outcome.pr_number)).field(
        "status",
        Json::text(status_word(outcome.status)),
    ).field("method", Json::text(method)).field("stack", Json::Bool(stack)).field(
        "restacked",
        Json::count(outcome.restacked),
    ).field("pushed_branches", Json::texts(&outcome.pushed)).field(
        "worktree",
        Json::opt_text(&outcome.worktree),
    ).done()
}

/// What came of the merge of a native stack.
#[derive(Debug)]
pub struct NativeMergeOutcome {
    pub status: MergePrOutcome,
    pub branches: Vec<String>,
    pub pr_numbers: Vec<u64>,
    pub merged_pr_number: u64,
}

/// The receipt for the merge of a native stack.
pub open spec fn native_merge_receipt(o: NativeMergeOutcome, method: Seq<char>) -> JsonView {
    JsonView::Object(
        no_fields().insert("cmd"@, JsonView::Text("merge"@)).insert(
            "mode"@,
            JsonView::Text("native_stack"@),
        ).insert("status"@, JsonView::Text(status_text(o.status))).insert(
            "method"@,
            JsonView::Text(method),
        ).insert("stack"@, JsonView::Bool(true)).insert(
            "branches"@,
            text_list(views(o.branches@)),
        ).insert("pr_numbers"@, number_list(o.pr_numbers@)).insert(
            "merged_pr_number"@,
            JsonView::Number(o.merged_pr_number),
        ),
    )
}

/// The receipt for the merge of a native stack.
pub fn native_merge_receipt_value(outcome: &NativeMergeOutcome, method: &str) -> (r: Json)
    ensures
        r@ == native_merge_receipt(*outcome, method@),
{
    JsonObject::new().field("cmd", Json::text("merge")).field(
        "mode",
        Json::text("native_stack"),
    ).field("status", Json::text(status_word(outcome.status))).field(
        "method",
        Json::text(method),
    ).field("stack", Json::Bool(true)).field("branches", Json::texts(&outcome.branches)).field(
        "pr_numbers",
        Json::numbers(&outcome.pr_numbers),
    ).field("merged_pr_number", Json::Number(outcome.merged_pr_number)).done()
}

/// What has to happen before the targets are merged.
#[derive(Debug)]
pub enum MergeStart {
    /// There is nothing to merge.
    Nothing,
    /// The user has to agree.
    Confirm(String),
    /// The merge goes ahead.
    Go,
}

/// The targets in words.
pub open spec fn target_list(s: Seq<(Seq<char>, u64)>) -> Seq<Seq<char>> {
    Seq::new(s.len(), |i: int| "#"@ + decimal(s[i].1 as nat) + " `"@ + s[i].0 + "`"@)
}

/// The question that is asked before a merge.
pub open spec fn merge_question(s: Seq<(Seq<char>, u64)>, stack: bool, title: Seq<char>) -> Seq<
    char,
> {
    if stack {
        "Merge "@ + decimal(s.len()) + " PRs from the current stack ("@ + joined(
            target_list(s),
            ", "@,
        ) + ")?"@
    } else {
        "Merge PR #"@ + decimal(s[0].1 as nat) + " for `"@ + s[0].0 + "` ("@ + title + ")?"@
    }
}

/// What has to happen before the targets are merged: the user is asked unless they agreed
/// already. `title` is that of the first target's pull request.
pub fn run(targets: &Vec<MergeTarget>, stack: bool, yes: bool, title: &str) -> (r: MergeStart)
    ensures
        match r {
            MergeStart::Nothing => targets.len() == 0,
            MergeStart::Go => targets.len() > 0 && yes,
            MergeStart::Confirm(q) => targets.len() > 0 && !yes && q@ == merge_question(
                target_views(targets@),
                stack,
                title@,
            ),
        },
{
    let ghost all = target_views(targets@);
    if targets.len() == 0 {
        return MergeStart::Nothing;
    }
    if yes {
        return MergeStart::Go;
    }
    if !stack {
        let n: String = number(targets[0].pr_number);
        return MergeStart::Confirm(
            String::from_str("Merge PR #").concat(&n).concat(" for `").concat(
                &targets[0].branch,
            ).concat("` (").concat(title).concat(")?"),
        );
    }
    let mut parts: Vec<String> = Vec::new();
    let mut i: usize = 0;
    assert(views(parts@) =~= target_list(all).take(0));
    while i < targets.len()
        invariant
            i <= targets.len(),
            all == target_views(targets@),
            views(parts@) == target_list(all).take(i as int),
        decreases targets.len() - i,
    {
        let ghost held = views(parts@);
        let n: String = number(targets[i].pr_number);
        let part: String = String::from_str("#").concat(&n).concat(" `").concat(
            &targets[i].branch,
        ).concat("`");
        let ghost p = part@;
        parts.push(part);
        proof {
            assert(target_list(all)[i as int] == p);
            assert(views(parts@) =~= held.push(p));
            assert(target_list(all).take(i + 1) =~= target_list(all).take(i as int).push(p));
        }
        i += 1;
    }
    assert(target_list(all).take(targets.len() as int) =~= target_list(all));
    let n: String = count(targets.len());
    let list: String = join(&parts, ", ");
    MergeStart::Confirm(
        String::from_str("Merge ").concat(&n).concat(" PRs from the current stack (").concat(
            &list,
        ).concat(")?"),
    )
}

/// Whether the targets are merged by one request for the top one: a whole stack that GitHub links
/// exactly so, outside a fork workflow.
pub fn merges_natively(
    state: &StackState,
    targets: &Vec<MergeTarget>,
    stack: bool,
    native: Option<&NativeStackInfo>,
) -> (r: bool)
    ensures
        r == (stack && !state@.is_fork_workflow() && targets.len() >= 2 && native is Some
            && native->0.pull_requests@ == target_prs(target_views(targets@))),
{
    stack && !state.is_fork_workflow() && exact_native_stack_match(targets, native)
}

/// The branches that were restacked by all of the merges.
pub open spec fn restacked_sum(s: Seq<MergeOutcome>) -> int
    decreases s.len(),
{
    if s.len() == 0 {
        0
    } else {
        restacked_sum(s.drop_last()) + s.last().restacked
    }
}

/// The branches that were pushed by all of the merges.
pub open spec fn pushed_sum(s: Seq<MergeOutcome>) -> int
    decreases s.len(),
{
    if s.len() == 0 {
        0
    } else {
        pushed_sum(s.drop_last()) + s.last().pushed@.len()
    }
}

/// A count, or the largest one that fits.
pub open spec fn capped(n: int) -> nat {
    if n > usize::MAX {
        usize::MAX as nat
    } else {
        n as nat
    }
}

/// What is said after merges one by one, of which the last may have been put in a queue.
pub open spec fn notes_for(s: Seq<MergeOutcome>, targets: nat, stack: bool) -> Seq<Seq<char>> {
    let restacked = if restacked_sum(s) > 0 {
        seq!["Restacked "@ + decimal(capped(restacked_sum(s))) + " branch(es)"@]
    } else {
        Seq::empty()
    };
    let pushed = if pushed_sum(s) > 0 {
        restacked.push(
            "Updated "@ + decimal(capped(pushed_sum(s))) + " remote branch(es) after restack"@,
        )
    } else {
        restacked
    };
    pushed.push(
        if s.len() > 0 && s.last().status == MergePrOutcome::Enqueued {
            "Merge enqueued for `"@ + s.last().branch@ + "`"@
        } else if stack {
            "Merged "@ + decimal(targets) + " PR(s) from the current stack"@
        } else {
            "Merge complete"@
        },
    )
}

fn sum_capped(a: usize, b: usize) -> (r: usize)
    ensures
        r == capped(a + b),
{
    if b > usize::MAX - a {
        usize::MAX
    } else {
        a + b
    }
}

/// What is said after merges one by one, of which the last may have been put in a queue.
pub fn merge_notes(outcomes: &Vec<MergeOutcome>, targets: usize, stack: bool) -> (r: Vec<String>)
    ensures
        views(r@) == notes_for(outcomes@, targets as nat, stack),
{
    let mut restacked: usize = 0;
    let mut pushed: usize = 0;
    let mut i: usize = 0;
    assert(outcomes@.take(0) =~= Seq::<MergeOutcome>::empty());
    while i < outcomes.len()
        invariant
            i <= outcomes.len(),
            restacked_sum(outcomes@.take(i as int)) >= 0,
            pushed_sum(outcomes@.take(i as int)) >= 0,
            restacked == capped(restacked_sum(outcomes@.take(i as int))),
            pushed == capped(pushed_sum(outcomes@.take(i as int))),
        decreases outcomes.len() - i,
    {
        assert(outcomes@.take(i + 1).drop_last() =~= outcomes@.take(i as int));
        assert(outcomes@.take(i + 1).last() == outcomes@[i as int]);
        restacked = sum_capped(restacked, outcomes[i].restacked);
        pushed = sum_capped(pushed, outcomes[i].pushed.len());
        i += 1;
    }
    assert(outcomes@.take(outcomes.len() as int) =~= outcomes@);
    let mut out: Vec<String> = Vec::new();
    assert(views(out@) =~= Seq::<Seq<char>>::empty());
    if restacked > 0 {
        let n: String = count(restacked);
        let line: String = String::from_str("Restacked ").concat(&n).concat(" branch(es)");
        let ghost l = line@;
        out.push(line);
        assert(views(out@) =~= seq![l]);
    }
    let ghost held = views(out@);
    if pushed > 0 {
        let n: String = count(pushed);
        let line: String = String::from_str("Updated ").concat(&n).concat(
            " remote branch(es) after restack",
        );
        let ghost l = line@;
        out.push(line);
        assert(views(out@) =~= held.push(l));
    }
    let ghost most = views(out@);
    let queued: bool = outcomes.len() > 0 && match outcomes[outcomes.len() - 1].status {
        MergePrOutcome::Enqueued => true,
        MergePrOutcome::Merged => false,
    };
    let last: String = if queued {
        String::from_str("Merge enqueued for `").concat(&outcomes[outcomes.len() - 1].branch).concat(
            "`",
        )
    } else if stack {
        let n: String = count(targets);
        String::from_str("Merged ").concat(&n).concat(" PR(s) from the current stack")
    } else {
        String::from_str("Merge complete")
    };
    let ghost l = last@;
    out.push(last);
    assert(views(out@) =~= most.push(l));
    out
}

/// What was merged is taken out; what stood directly on it stands on the trunk, and everything
/// else stays where it was. Nothing but parents changes.
pub proof fn law_merged_branches_leave_their_children_on_trunk(
    m: Forest,
    gone: Seq<Seq<char>>,
    trunk: Seq<char>,
    k: Seq<char>,
)
    ensures
        merged_out(m, gone, trunk).contains_key(k) <==> m.contains_key(k) && !gone.contains(k),
        m.contains_key(k) && !gone.contains(k) && gone.contains(m[k].parent) ==> merged_out(
            m,
            gone,
            trunk,
        )[k].parent == trunk,
        m.contains_key(k) && !gone.contains(k) && !gone.contains(m[k].parent) ==> merged_out(
            m,
            gone,
            trunk,
        )[k] == m[k],
        m.contains_key(k) && !gone.contains(k) ==> {
            let w = merged_out(m, gone, trunk)[k];
            w.parent_head == m[k].parent_head && w.pr_number == m[k].pr_number && w.scope
                == m[k].scope && w.scope_mode == m[k].scope_mode
        },
        outer_children(m, gone).contains(k) <==> m.contains_key(k) && !gone.contains(k)
            && gone.contains(m[k].parent),
        outer_moved(m, gone, trunk).contains_key(k) <==> m.contains_key(k),
        m.contains_key(k) && !gone.contains(k) && gone.contains(m[k].parent) ==> outer_moved(
            m,
            gone,
            trunk,
        )[k].parent == trunk && outer_moved(m, gone, trunk)[k].pr_number == m[k].pr_number,
        m.contains_key(k) && !(!gone.contains(k) && gone.contains(m[k].parent)) ==> outer_moved(
            m,
            gone,
            trunk,
        )[k] == m[k],
{
}

/// The targets of a merge are the branches named, in their order, each with the pull request
/// recorded for it.
pub proof fn law_targets_are_recorded_pull_requests(
    s: StackView,
    names: Seq<Seq<char>>,
    targets: Seq<(Seq<char>, u64)>,
)
    requires
        targets_of(s, names, targets),
    ensures
        targets.len() == names.len(),
        target_names(targets) == names,
        target_prs(targets).len() == names.len(),
        forall|i: int|
            0 <= i < names.len() ==> s.branches.contains_key(#[trigger] names[i])
                && s.branches[names[i]].pr_number == Some(target_prs(targets)[i]),
{
    assert(target_names(targets) =~= names);
}

/// A worktree of a target stops a merge exactly where it is guarded or holds changes that are not
/// committed; a branch without a worktree never does.
pub proof fn law_clean_worktree_is_no_problem(
    b: Seq<char>,
    guards: Map<Seq<char>, String>,
    worktrees: Map<Seq<char>, WorktreeStatus>,
)
    ensures
        worktree_problem(b, guards, worktrees) is Some <==> worktrees.contains_key(b) && (
        guards.contains_key(b) || worktrees[b].staged > 0 || worktrees[b].modified > 0
            || worktrees[b].untracked > 0),
{
}

/// The branches restacked and pushed by all merges are counted once each.
pub proof fn law_merge_sums_add_up(s: Seq<MergeOutcome>, o: MergeOutcome)
    ensures
        restacked_sum(Seq::<MergeOutcome>::empty()) == 0,
        pushed_sum(Seq::<MergeOutcome>::empty()) == 0,
        restacked_sum(s.push(o)) == restacked_sum(s) + o.restacked,
        pushed_sum(s.push(o)) == pushed_sum(s) + o.pushed@.len(),
{
    assert(s.push(o).drop_last() =~= s);
}

/// Notes tell what was restacked and pushed where anything was, and end with what became of the
/// merge.
pub proof fn law_notes_end_with_the_merge(s: Seq<MergeOutcome>, targets: nat, stack: bool)
    ensures
        ({
            let n = notes_for(s, targets, stack);
            let enqueued = s.len() > 0 && s.last().status == MergePrOutcome::Enqueued;
            &&& n.len() == 1 + (if restacked_sum(s) > 0 {
                1int
            } else {
                0
            }) + (if pushed_sum(s) > 0 {
                1int
            } else {
                0
            })
            &&& enqueued ==> n.last() == "Merge enqueued for `"@ + s.last().branch@ + "`"@
            &&& !enqueued && stack ==> n.last() == "Merged "@ + decimal(targets)
                + " PR(s) from the current stack"@
            &&& !enqueued && !stack ==> n.last() == "Merge complete"@
        }),
{
}

/// A receipt of a merge names the branch and its pull request, what became of it, and what was
/// restacked and pushed after it.
pub proof fn law_merge_receipt_tells_the_merge(o: MergeOutcome, method: Seq<char>, stack: bool)
    ensures
        merge_receipt(o, method, stack) matches JsonView::Object(m) && {
            &&& m["branch"@] == JsonView::Text(o.branch@)
            &&& m["pr_number"@] == JsonView::Number(o.pr_number)
            &&& m["status"@] == JsonView::Text(status_text(o.status))
            &&& m["method"@] == JsonView::Text(method)
            &&& m["stack"@] == JsonView::Bool(stack)
            &&& m["restacked"@] == JsonView::Number(o.restacked as u64)
            &&& m["pushed_branches"@] == text_list(views(o.pushed@))
        },
{
    reveal_strlit("cmd");
    reveal_strlit("branch");
    reveal_strlit("pr_number");
    reveal_strlit("status");
    reveal_strlit("method");
    reveal_strlit("stack");
    reveal_strlit("restacked");
    reveal_strlit("pushed_branches");
    reveal_strlit("worktree");
    assert("cmd"@.len() == 3);
    assert("branch"@.len() == 6);
    assert("pr_number"@.len() == 9);
    assert("status"@.len() == 6);
    assert("method"@.len() == 6);
    assert("stack"@.len() == 5);
    assert("restacked"@.len() == 9);
    assert("pushed_branches"@.len() == 15);
    assert("worktree"@.len() == 8);
    assert("branch"@[0] == 'b');
    assert("status"@[0] == 's');
    assert("method"@[0] == 'm');
    assert("pr_number"@[0] == 'p');
    assert("restacked"@[0] == 'r');
}

} // verus!
