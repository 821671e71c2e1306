//! Bringing the stack up to date with the remote.

use crate::cmd::native_stack::{SkippedNativeStackComponent, SkippedView};
use crate::cmd::restack::{failed_names, left_behind, RestackReport};
use crate::error::{error_view, ErrorView, EzError};
use crate::git::{GitView, WorktreeInfo};
use crate::github::PrInfo;
use crate::json::{no_fields, text_list, Json, JsonObject, JsonView};
use crate::name_map::NameMap;
use crate::names::{ranked, ranks};
use crate::stack::{breadth_first, topo, StackState, StackView};
use crate::text::{
    begins, copy_all, count, decimal, holds, joined, lex_less, opt_view, path_within, same, sorted,
    starts_with, trim_slashes, unslashed, views, within_path,
};
use vstd::prelude::*;
use vstd::string::*;

verus! {

/// The names of `s` other than the trunk, each where it first stands.
pub open spec fn candidates_of(trunk: Seq<char>, s: Seq<Seq<char>>) -> Seq<Seq<char>>
    decreases s.len(),
{
    if s.len() == 0 {
        Seq::empty()
    } else {
        let low = candidates_of(trunk, s.drop_last());
        if s.last() != trunk && !low.contains(s.last()) {
            low.push(s.last())
        } else {
            low
        }
    }
}

/// The branches that a sync may clean up: every recorded branch but the trunk, once.
pub fn cleanup_candidate_branches(trunk: &str, managed_branches: &Vec<String>) -> (r: Vec<String>)
    ensures
        views(r@) == candidates_of(trunk@, views(managed_branches@)),
{
    let ghost all = views(managed_branches@);
    let mut out: Vec<String> = Vec::new();
    let mut i: usize = 0;
    assert(all.take(0) =~= Seq::<Seq<char>>::empty());
    assert(views(out@) =~= Seq::<Seq<char>>::empty());
    while i < managed_branches.len()
        invariant
            i <= managed_branches.len(),
            all == views(managed_branches@),
            views(out@) == candidates_of(trunk@, all.take(i as int)),
        decreases managed_branches.len() - i,
    {
        let ghost held = views(out@);
        let b: &String = &managed_branches[i];
        assert(all.take(i + 1).drop_last() =~= all.take(i as int));
        assert(all.take(i + 1).last() == b@);
        if !same(b, trunk) && !holds(&out, b) {
            out.push(b.clone());
            assert(views(out@) =~= held.push(b@));
        }
        i += 1;
    }
    assert(all.take(managed_branches.len() as int) =~= all);
    out
}

/// The candidates for clean-up are without the trunk and without repetition, and hold every
/// other name of the list.
pub proof fn law_candidates_are_the_others(trunk: Seq<char>, s: Seq<Seq<char>>)
    ensures
        candidates_of(trunk, s).no_duplicates(),
        forall|b: Seq<char>| #[trigger]
            candidates_of(trunk, s).contains(b) <==> b != trunk && s.contains(b),
    decreases s.len(),
{
    if s.len() > 0 {
        let low = s.drop_last();
        let x = s.last();
        law_candidates_are_the_others(trunk, low);
        assert(s =~= low.push(x));
        assert forall|b: Seq<char>| #[trigger]
            candidates_of(trunk, s).contains(b) <==> b != trunk && s.contains(b) by {
            vstd::seq_lib::lemma_seq_contains_after_push(low, x, b);
            vstd::seq_lib::lemma_seq_contains_after_push(candidates_of(trunk, low), x, b);
        }
    }
}

/// The recorded branches in the order of a sync: those on the trunk, parents first, then the
/// others by name.
pub open spec fn sync_order(s: StackView, r: Seq<Seq<char>>) -> bool {
    let on_trunk = topo(s.branches, s.trunk);
    &&& r.len() >= on_trunk.len()
    &&& r.take(on_trunk.len() as int) == on_trunk
    &&& ranks(
        r.skip(on_trunk.len() as int),
        Set::new(|b: Seq<char>| s.managed(b) && !on_trunk.contains(b)),
    )
}

/// The recorded branches in the order of a sync.
pub fn managed_order(state: &StackState) -> (r: Vec<String>)
    ensures
        sync_order(state@, views(r@)),
        breadth_first(state@.branches, state@.trunk, topo(state@.branches, state@.trunk)),
{
    let mut order: Vec<String> = state.topo_order();
    let ghost on_trunk = views(order@);
    let keys: Vec<String> = state.branches.keys();
    let ghost names = views(keys@);
    let ghost m = state@.branches;
    let mut rest: Vec<String> = Vec::new();
    let mut i: usize = 0;
    while i < keys.len()
        invariant
            i <= keys.len(),
            names == views(keys@),
            sorted(names),
            on_trunk == views(order@),
            sorted(views(rest@)),
            forall|b: Seq<char>| #[trigger]
                views(rest@).contains(b) <==> !on_trunk.contains(b) && names.take(
                    i as int,
                ).contains(b),
        decreases keys.len() - i,
    {
        let ghost held = views(rest@);
        let ghost name = names[i as int];
        let ghost low = names.take(i as int);
        assert(name == keys@[i as int]@);
        assert(names.take(i + 1) =~= low.push(name));
        let fresh: bool = !holds(&order, &keys[i]);
        if fresh {
            rest.push(keys[i].clone());
        }
        proof {
            let now = views(rest@);
            if fresh {
                assert(now =~= held.push(name));
                assert forall|a: int, b: int| 0 <= a < b < now.len() implies lex_less(
                    #[trigger] now[a],
                    #[trigger] now[b],
                ) by {
                    if b == held.len() {
                        assert(held.contains(held[a]));
                        let z = choose|z: int| 0 <= z < low.len() && low[z] == held[a];
                        assert(lex_less(names[z], names[i as int]));
                    } else {
                        assert(lex_less(held[a], held[b]));
                    }
                }
            }
            assert forall|b: Seq<char>| #[trigger] now.contains(b) <==> !on_trunk.contains(b)
                && names.take(i + 1).contains(b) by {
                vstd::seq_lib::lemma_seq_contains_after_push(low, name, b);
                vstd::seq_lib::lemma_seq_contains_after_push(held, name, b);
            }
        }
        i += 1;
    }
    let ghost tail = views(rest@);
    proof {
        assert(names.take(keys.len() as int) =~= names);
        let goal = Set::new(|b: Seq<char>| state@.managed(b) && !on_trunk.contains(b));
        assert forall|b: Seq<char>| #[trigger] tail.contains(b) <==> goal.contains(b) by {
            assert(names.contains(b) <==> m.contains_key(b));
        }
        assert(ranks(tail, goal));
    }
    order.append(&mut rest);
    proof {
        let all = views(order@);
        assert(all =~= on_trunk + tail);
        assert(all.take(on_trunk.len() as int) =~= on_trunk);
        assert(all.skip(on_trunk.len() as int) =~= tail);
    }
    order
}

/// Why a branch is cleaned up, if it is. A pull request decides alone; without one, the branch
/// must be merged by git's account or differ in nothing from the trunk.
pub open spec fn reason_for(
    pr: Option<PrInfo>,
    merged_via_git: bool,
    merged_via_diff: bool,
) -> Option<Seq<char>> {
    match pr {
        Some(p) => if p.merged {
            Some("merged"@)
        } else if p.state@ == "CLOSED"@ {
            Some("pr_closed"@)
        } else {
            None
        },
        None => if merged_via_git || merged_via_diff {
            Some("merged"@)
        } else {
            None
        },
    }
}

/// Why a branch is cleaned up, if it is.
pub fn cleanup_reason(pr_info: Option<&PrInfo>, merged_via_git: bool, merged_via_diff: bool) -> (r:
    Option<&'static str>)
    ensures
        (match r {
            Some(t) => Some(t@),
            None => None,
        }) == reason_for(
            match pr_info {
                Some(p) => Some(*p),
                None => None,
            },
            merged_via_git,
            merged_via_diff,
        ),
{
    match pr_info {
        Some(pr) => if pr.merged {
            Some("merged")
        } else if same(&pr.state, "CLOSED") {
            Some("pr_closed")
        } else {
            None
        },
        None => if merged_via_git || merged_via_diff {
            Some("merged")
        } else {
            None
        },
    }
}

/// Whether a directory is a worktree or lies inside it. Both paths are taken as they are, with
/// links already resolved.
pub fn inside_worktree_path(current_dir: &str, worktree_path: &str) -> (r: bool)
    ensures
        r == path_within(current_dir@, worktree_path@),
{
    within_path(current_dir, worktree_path)
}

/// The receipt for a component that cannot be linked.
pub open spec fn skipped_receipt(c: SkippedView) -> JsonView {
    skipped_receipt_for("sync"@, c)
}

/// The receipt of a command for a component that cannot be linked.
pub open spec fn skipped_receipt_for(cmd: Seq<char>, c: SkippedView) -> JsonView {
    JsonView::Object(
        no_fields().insert("cmd"@, JsonView::Text(cmd)).insert(
            "branches"@,
            text_list(c.branches),
        ).insert("native_stack_action"@, JsonView::Text("skipped"@)).insert(
            "native_stack_reason"@,
            JsonView::Text(c.reason),
        ).insert("native_stack_root"@, JsonView::Text(c.root)),
    )
}

/// The receipt for a component that cannot be linked.
pub fn skipped_native_stack_receipt(component: &SkippedNativeStackComponent) -> (r: Json)
    ensures
        r@ == skipped_receipt(component@),
{
    skipped_component_receipt("sync", component)
}

/// The receipt of a command for a component that cannot be linked.
pub fn skipped_component_receipt(cmd: &str, component: &SkippedNativeStackComponent) -> (r: Json)
    ensures
        r@ == skipped_receipt_for(cmd@, component@),
{
    JsonObject::new().field("cmd", Json::text(cmd)).field(
        "branches",
        Json::texts(&component.branches),
    ).field("native_stack_action", Json::text("skipped")).field(
        "native_stack_reason",
        Json::text(component.reason),
    ).field("native_stack_root", Json::text(&component.root)).done()
}

/// The path of each branch's worktree, by branch; where one branch has several, the last.
/// The main worktree does not count.
pub open spec fn worktrees_by_branch(s: Seq<WorktreeInfo>, main_root: Seq<char>) -> Map<
    Seq<char>,
    Seq<char>,
>
    decreases s.len(),
{
    if s.len() == 0 {
        Map::empty()
    } else {
        let low = worktrees_by_branch(s.drop_last(), main_root);
        let w = s.last();
        match w.branch {
            Some(b) => if w.path@ != main_root {
                low.insert(b@, w.path@)
            } else {
                low
            },
            None => low,
        }
    }
}

/// The contents of paths by name.
pub open spec fn path_views(m: Map<Seq<char>, String>) -> Map<Seq<char>, Seq<char>> {
    Map::new(|k: Seq<char>| m.contains_key(k), |k: Seq<char>| m[k]@)
}

/// The path of each branch's worktree, by branch.
pub fn branch_worktree_map(worktrees: &Vec<WorktreeInfo>, main_root: &str) -> (r: NameMap<String>)
    ensures
        path_views(r@) == worktrees_by_branch(worktrees@, main_root@),
{
    let mut out: NameMap<String> = NameMap::new();
    let mut i: usize = 0;
    assert(worktrees@.take(0) =~= Seq::<WorktreeInfo>::empty());
    assert(path_views(out@) =~= Map::<Seq<char>, Seq<char>>::empty());
    while i < worktrees.len()
        invariant
            i <= worktrees.len(),
            path_views(out@) == worktrees_by_branch(worktrees@.take(i as int), main_root@),
        decreases worktrees.len() - i,
    {
        let ghost held = out@;
        let w: &WorktreeInfo = &worktrees[i];
        assert(worktrees@.take(i + 1).drop_last() =~= worktrees@.take(i as int));
        assert(worktrees@.take(i + 1).last() == w);
        if let Some(b) = &w.branch {
            if !same(&w.path, main_root) {
                out.insert(b.clone(), w.path.clone());
                assert(path_views(out@) =~= path_views(held).insert(b@, w.path@));
            }
        }
        i += 1;
    }
    assert(worktrees@.take(worktrees.len() as int) =~= worktrees@);
    out
}

/// The directory where this repository's own worktrees lie.
pub open spec fn owned_prefix(main_root: Seq<char>) -> Seq<char> {
    unslashed(main_root) + "/.worktrees/"@
}

/// Whether a branch has a worktree of this repository's own, but no record.
pub open spec fn orphaned(
    s: StackView,
    main_root: Seq<char>,
    m: Map<Seq<char>, Seq<char>>,
    b: Seq<char>,
) -> bool {
    m.contains_key(b) && !s.managed(b) && b != s.trunk && begins(m[b], owned_prefix(main_root))
}

/// The branches that have a worktree of this repository's own but no record, by name, each with
/// its worktree. A worktree anywhere else is left alone.
pub fn orphaned_ez_worktrees(
    state: &StackState,
    main_root: &str,
    worktree_map: &NameMap<String>,
) -> (r: Vec<(String, String)>)
    ensures
        ranks(
            Seq::new(r@.len(), |i: int| r@[i].0@),
            Set::new(
                |b: Seq<char>| orphaned(state@, main_root@, path_views(worktree_map@), b),
            ),
        ),
        forall|i: int|
            0 <= i < r.len() ==> (#[trigger] r@[i]).1@ == path_views(worktree_map@)[r@[i].0@],
{
    let prefix: String = trim_slashes(main_root).to_owned().concat("/.worktrees/");
    let ghost m = path_views(worktree_map@);
    let ghost goal = Set::new(|b: Seq<char>| orphaned(state@, main_root@, m, b));
    let keys: Vec<String> = worktree_map.keys();
    let ghost names = views(keys@);
    let mut out: Vec<(String, String)> = Vec::new();
    let ghost mut listed: Seq<Seq<char>> = Seq::empty();
    let mut i: usize = 0;
    while i < keys.len()
        invariant
            i <= keys.len(),
            names == views(keys@),
            sorted(names),
            prefix@ == owned_prefix(main_root@),
            m == path_views(worktree_map@),
            goal == Set::new(|b: Seq<char>| orphaned(state@, main_root@, m, b)),
            listed =~= Seq::new(out@.len(), |j: int| out@[j].0@),
            sorted(listed),
            forall|b: Seq<char>| #[trigger]
                listed.contains(b) <==> goal.contains(b) && names.take(i as int).contains(b),
            forall|j: int| 0 <= j < out.len() ==> (#[trigger] out@[j]).1@ == m[out@[j].0@],
        decreases keys.len() - i,
    {
        let ghost name = names[i as int];
        let ghost low = names.take(i as int);
        let ghost held = listed;
        assert(name == keys@[i as int]@);
        assert(names.take(i + 1) =~= low.push(name));
        let found: bool = match worktree_map.get(&keys[i]) {
            Some(path) => {
                if !state.is_managed(&keys[i]) && !state.is_trunk(&keys[i]) && starts_with(
                    path,
                    &prefix,
                ) {
                    out.push((keys[i].clone(), path.clone()));
                    true
                } else {
                    false
                }
            },
            None => false,
        };
        proof {
            assert(found == goal.contains(name));
            if found {
                listed = listed.push(name);
                assert forall|a: int, b: int| 0 <= a < b < listed.len() implies lex_less(
                    #[trigger] listed[a],
                    #[trigger] listed[b],
                ) by {
                    if b == held.len() {
                        assert(held.contains(held[a]));
                        let z = choose|z: int| 0 <= z < low.len() && low[z] == held[a];
                        assert(lex_less(names[z], names[i as int]));
                    } else {
                        assert(lex_less(held[a], held[b]));
                    }
                }
            }
            assert forall|b: Seq<char>| #[trigger] listed.contains(b) <==> goal.contains(b)
                && names.take(i + 1).contains(b) by {
                vstd::seq_lib::lemma_seq_contains_after_push(low, name, b);
                vstd::seq_lib::lemma_seq_contains_after_push(held, name, b);
            }
        }
        i += 1;
    }
    proof {
        assert(names.take(keys.len() as int) =~= names);
        assert forall|b: Seq<char>| #[trigger] listed.contains(b) <==> goal.contains(b) by {
            assert(names.contains(b) <==> worktree_map@.contains_key(b));
        }
    }
    out
}

/// How the pull requests of the candidates are looked up.
#[derive(Debug)]
pub enum PrQuery {
    /// By the numbers recorded for the branches.
    ByNumber(Vec<(String, u64)>),
    /// By the names of the branches.
    ByName(Vec<String>),
}

/// The branches with a recorded pull request, each with its number.
pub open spec fn numbered(s: StackView, names: Seq<Seq<char>>) -> Seq<(Seq<char>, u64)>
    decreases names.len(),
{
    if names.len() == 0 {
        Seq::empty()
    } else {
        let low = numbered(s, names.drop_last());
        let b = names.last();
        if s.managed(b) && s.branches[b].pr_number is Some {
            low.push((b, s.branches[b].pr_number->0))
        } else {
            low
        }
    }
}

/// The contents of a list of names with numbers.
pub open spec fn numbered_views(s: Seq<(String, u64)>) -> Seq<(Seq<char>, u64)> {
    Seq::new(s.len(), |i: int| (s[i].0@, s[i].1))
}

/// How the pull requests of the candidates are looked up: in a fork workflow a name may be
/// another contributor's, so only recorded numbers count.
pub fn pr_query(state: &StackState, candidates: &Vec<String>) -> (r: PrQuery)
    ensures
        match r {
            PrQuery::ByNumber(v) => state@.is_fork_workflow() && numbered_views(v@) == numbered(
                state@,
                views(candidates@),
            ),
            PrQuery::ByName(v) => !state@.is_fork_workflow() && v@ == candidates@,
        },
{
    if !state.is_fork_workflow() {
        return PrQuery::ByName(copy_all(candidates));
    }
    let ghost all = views(candidates@);
    let mut out: Vec<(String, u64)> = Vec::new();
    let mut i: usize = 0;
    assert(all.take(0) =~= Seq::<Seq<char>>::empty());
    assert(numbered_views(out@) =~= Seq::<(Seq<char>, u64)>::empty());
    while i < candidates.len()
        invariant
            i <= candidates.len(),
            all == views(candidates@),
            numbered_views(out@) == numbered(state@, all.take(i as int)),
        decreases candidates.len() - i,
    {
        let ghost held = numbered_views(out@);
        assert(all.take(i + 1).drop_last() =~= all.take(i as int));
        assert(all.take(i + 1).last() == candidates@[i as int]@);
        if let Some(meta) = state.branches.get(&candidates[i]) {
            if let Some(n) = meta.pr_number {
                out.push((candidates[i].clone(), n));
                assert(numbered_views(out@) =~= held.push((candidates@[i as int]@, n)));
            }
        }
        i += 1;
    }
    assert(all.take(candidates.len() as int) =~= all);
    PrQuery::ByNumber(out)
}

/// A pull request whose base is to follow its branch's new parent.
#[derive(Debug)]
pub struct PrBaseUpdate {
    pub branch: String,
    pub pr_number: u64,
    pub base: String,
}

/// The contents of a `PrBaseUpdate`.
#[verifier::ext_equal]
pub struct UpdateView {
    pub branch: Seq<char>,
    pub pr_number: u64,
    pub base: Seq<char>,
}

impl View for PrBaseUpdate {
    type V = UpdateView;

    open spec fn view(&self) -> UpdateView {
        UpdateView { branch: self.branch@, pr_number: self.pr_number, base: self.base@ }
    }
}

/// The pull requests of `names` that have one, each with its branch's parent.
pub open spec fn updates_for(s: StackView, names: Seq<Seq<char>>) -> Seq<UpdateView>
    decreases names.len(),
{
    if names.len() == 0 {
        Seq::empty()
    } else {
        let low = updates_for(s, names.drop_last());
        let b = names.last();
        if s.managed(b) && s.branches[b].pr_number is Some {
            low.push(
                UpdateView {
                    branch: b,
                    pr_number: s.branches[b].pr_number->0,
                    base: s.branches[b].parent,
                },
            )
        } else {
            low
        }
    }
}

/// The contents of a list of updates.
pub open spec fn update_views(s: Seq<PrBaseUpdate>) -> Seq<UpdateView> {
    s.map_values(|u: PrBaseUpdate| u@)
}

/// The pull requests whose bases are to follow the new parents of `reparented_branches`.
pub fn update_reparented_pr_bases(state: &StackState, reparented_branches: &Vec<String>) -> (r: Vec<
    PrBaseUpdate,
>)
    ensures
        update_views(r@) == updates_for(state@, views(reparented_branches@)),
{
    let ghost all = views(reparented_branches@);
    let mut out: Vec<PrBaseUpdate> = Vec::new();
    let mut i: usize = 0;
    assert(all.take(0) =~= Seq::<Seq<char>>::empty());
    assert(update_views(out@) =~= Seq::<UpdateView>::empty());
    while i < reparented_branches.len()
        invariant
            i <= reparented_branches.len(),
            all == views(reparented_branches@),
            update_views(out@) == updates_for(state@, all.take(i as int)),
        decreases reparented_branches.len() - i,
    {
        let ghost held = update_views(out@);
        assert(all.take(i + 1).drop_last() =~= all.take(i as int));
        assert(all.take(i + 1).last() == reparented_branches@[i as int]@);
        if let Some(meta) = state.branches.get(&reparented_branches[i]) {
            if let Some(n) = meta.pr_number {
                let update = PrBaseUpdate {
                    branch: reparented_branches[i].clone(),
                    pr_number: n,
                    base: meta.parent.clone(),
                };
                let ghost u = update@;
                out.push(update);
                assert(update_views(out@) =~= held.push(u));
            }
        }
        i += 1;
    }
    assert(all.take(reparented_branches.len() as int) =~= all);
    out
}

/// The receipt for a pull request base that was updated, or could not be.
pub open spec fn base_receipt(update: UpdateView, error: Option<Seq<char>>) -> JsonView {
    let base = no_fields().insert("cmd"@, JsonView::Text("sync"@)).insert(
        "branch"@,
        JsonView::Text(update.branch),
    ).insert(
        "action"@,
        JsonView::Text(
            if error is Some {
                "pr_base_update_error"@
            } else {
                "pr_base_updated"@
            },
        ),
    ).insert("pr_number"@, JsonView::Number(update.pr_number)).insert(
        "base"@,
        JsonView::Text(update.base),
    );
    JsonView::Object(
        match error {
            Some(e) => base.insert("error"@, JsonView::Text(e)),
            None => base,
        },
    )
}

/// The receipt for a pull request base that was updated, or could not be.
pub fn pr_base_receipt(update: &PrBaseUpdate, error: &Option<String>) -> (r: Json)
    ensures
        r@ == base_receipt(update@, opt_view(*error)),
{
    let action: &str = if error.is_some() {
        "pr_base_update_error"
    } else {
        "pr_base_updated"
    };
    let base: JsonObject = JsonObject::new().field("cmd", Json::text("sync")).field(
        "branch",
        Json::text(&update.branch),
    ).field("action", Json::text(action)).field(
        "pr_number",
        Json::Number(update.pr_number),
    ).field("base", Json::text(&update.base));
    let all: JsonObject = match error {
        Some(e) => base.field("error", Json::text(e)),
        None => base,
    };
    all.done()
}

/// Where the process goes at the end of a sync.
#[derive(Clone, Copy, Debug, PartialEq, Eq, Structural)]
pub enum ReturnPlan {
    /// Its worktree is gone: it stays in the main one.
    Stay,
    /// Back to the branch it was on.
    Original,
    /// To the trunk, since that branch is gone.
    Trunk,
}

/// Where the process goes at the end of a sync.
pub fn return_plan(cleaned_current_worktree: bool, original_exists: bool) -> (r: ReturnPlan)
    ensures
        r == if cleaned_current_worktree {
            ReturnPlan::Stay
        } else if original_exists {
            ReturnPlan::Original
        } else {
            ReturnPlan::Trunk
        },
{
    if cleaned_current_worktree {
        ReturnPlan::Stay
    } else if original_exists {
        ReturnPlan::Original
    } else {
        ReturnPlan::Trunk
    }
}

/// One line that sums a sync up.
pub open spec fn summary_text(cleaned: nat, restacked: nat, skipped: nat) -> Seq<char> {
    if skipped > 0 {
        "Synced ("@ + decimal(cleaned) + " cleaned, "@ + decimal(restacked) + " restacked, "@
            + decimal(skipped) + " skipped)"@
    } else if cleaned == 0 && restacked == 0 {
        "Everything is up to date"@
    } else {
        "Synced ("@ + decimal(cleaned) + " cleaned, "@ + decimal(restacked) + " restacked)"@
    }
}

/// One line that sums a sync up.
pub fn sync_summary(cleaned: usize, restacked: usize, skipped: usize) -> (r: String)
    ensures
        r@ == summary_text(cleaned as nat, restacked as nat, skipped as nat),
{
    if skipped > 0 {
        String::from_str("Synced (").concat(&count(cleaned)).concat(" cleaned, ").concat(
            &count(restacked),
        ).concat(" restacked, ").concat(&count(skipped)).concat(" skipped)")
    } else if cleaned == 0 && restacked == 0 {
        String::from_str("Everything is up to date")
    } else {
        String::from_str("Synced (").concat(&count(cleaned)).concat(" cleaned, ").concat(
            &count(restacked),
        ).concat(" restacked)")
    }
}

/// What is done about GitHub's native stacks at the end of a sync.
#[derive(Clone, Copy, Debug, PartialEq, Eq, Structural)]
pub enum NativeFollowUp {
    /// They are brought in line.
    Reconcile,
    /// They are left alone, since a pull request still has the wrong base.
    SkipStaleBases,
    /// Nothing.
    Nothing,
}

/// What is done about GitHub's native stacks at the end of a sync.
pub fn native_follow_up(all_bases_updated: bool, reconcile_native: bool) -> (r: NativeFollowUp)
    ensures
        r == if !reconcile_native {
            NativeFollowUp::Nothing
        } else if all_bases_updated {
            NativeFollowUp::Reconcile
        } else {
            NativeFollowUp::SkipStaleBases
        },
{
    if !reconcile_native {
        NativeFollowUp::Nothing
    } else if all_bases_updated {
        NativeFollowUp::Reconcile
    } else {
        NativeFollowUp::SkipStaleBases
    }
}

/// The receipt where native stacks are left alone because of a wrong base.
pub open spec fn stale_receipt() -> JsonView {
    JsonView::Object(
        no_fields().insert("cmd"@, JsonView::Text("sync"@)).insert(
            "native_stack_action"@,
            JsonView::Text("skipped"@),
        ).insert("native_stack_reason"@, JsonView::Text("pr_base_update_failed"@)),
    )
}

/// The receipt where native stacks are left alone because of a wrong base.
pub fn stale_bases_receipt() -> (r: Json)
    ensures
        r@ == stale_receipt(),
{
    JsonObject::new().field("cmd", Json::text("sync")).field(
        "native_stack_action",
        Json::text("skipped"),
    ).field("native_stack_reason", Json::text("pr_base_update_failed")).done()
}

/// How a sync ends.
#[derive(Clone, Copy, Debug, PartialEq, Eq, Structural)]
pub struct SyncFinalize {
    pub restacked: usize,
    pub skipped: usize,
    pub reconcile_native: bool,
}

/// The stages of a sync.
#[derive(Clone, Copy, Debug, PartialEq, Eq, Structural)]
pub enum SyncStage {
    Fetch,
    UpdateTrunk,
    Clean,
    Prune,
    Preflight,
    Restack,
    /// The stack is saved, and the process goes back to where it was.
    Finalize,
    Ended,
}

/// What came of a stage.
#[derive(Debug)]
pub enum SyncEvent {
    Done,
    Failed(String),
    /// The preflight's verdict, over so many candidates.
    Preflighted { verdict: Result<(), EzError>, candidates: usize },
    /// What the restack did.
    Restacked { report: RestackReport },
    /// The error that ended the finalizing, if any.
    Finalized(Option<EzError>),
}

/// The contents of a `SyncRun`.
#[verifier::ext_equal]
pub struct SyncRunView {
    pub trunk: Seq<char>,
    pub remote: Seq<char>,
    pub stage: SyncStage,
    pub plan: SyncFinalize,
    pub error: Option<ErrorView>,
}

/// What is said where the trunk could not be updated.
pub open spec fn trunk_text(trunk: Seq<char>, remote: Seq<char>, cause: Seq<char>) -> Seq<char> {
    "Could not update trunk `"@ + trunk + "` from `"@ + remote + "/"@ + trunk
        + "` without overwriting local changes.\n  → commit or stash changes in the `"@ + trunk
        + "` worktree, or run `ez sync --autostash` from that worktree.\n\nUnderlying error: "@
        + cause
}

impl SyncRunView {
    /// The sync after a stage. What does not belong to the stage changes nothing.
    pub open spec fn step(self, event: SyncEvent) -> SyncRunView {
        match (self.stage, event) {
            (SyncStage::Fetch, SyncEvent::Done) => SyncRunView {
                stage: SyncStage::UpdateTrunk,
                ..self
            },
            (SyncStage::Fetch, SyncEvent::Failed(t)) => SyncRunView {
                stage: SyncStage::Ended,
                error: Some(ErrorView::Other(t@)),
                ..self
            },
            (SyncStage::UpdateTrunk, SyncEvent::Done) => SyncRunView {
                stage: SyncStage::Clean,
                ..self
            },
            (SyncStage::UpdateTrunk, SyncEvent::Failed(t)) => SyncRunView {
                stage: SyncStage::Ended,
                error: Some(
                    ErrorView::UserMessage(trunk_text(self.trunk, self.remote, t@)),
                ),
                ..self
            },
            (SyncStage::Clean, SyncEvent::Done) => SyncRunView { stage: SyncStage::Prune, ..self },
            (SyncStage::Prune, SyncEvent::Done) => SyncRunView {
                stage: SyncStage::Preflight,
                ..self
            },
            (SyncStage::Preflight, SyncEvent::Preflighted { verdict, candidates }) => match verdict {
                Ok(_) => SyncRunView { stage: SyncStage::Restack, ..self },
                Err(e) => SyncRunView {
                    stage: SyncStage::Finalize,
                    plan: SyncFinalize {
                        restacked: 0,
                        skipped: candidates,
                        reconcile_native: false,
                    },
                    error: Some(e@),
                    ..self
                },
            },
            (SyncStage::Restack, SyncEvent::Restacked { report }) => SyncRunView {
                stage: SyncStage::Finalize,
                plan: SyncFinalize {
                    restacked: report.restacked,
                    skipped: report.failures.len(),
                    reconcile_native: report.failures@.len() == 0,
                },
                error: left_behind(report),
                ..self
            },
            (SyncStage::Finalize, SyncEvent::Finalized(error)) => SyncRunView {
                stage: SyncStage::Ended,
                error: match error {
                    Some(e) => Some(e@),
                    None => self.error,
                },
                ..self
            },
            _ => self,
        }
    }

    /// Whether branches may have been changed, and the sync has not ended.
    pub open spec fn under_way(self) -> bool {
        self.stage is Clean || self.stage is Prune || self.stage is Preflight || self.stage is Restack
    }
}

/// Once clean-up has begun a sync ends only through its last stage, which saves the stack:
/// neither a blocked preflight nor a branch that cannot be restacked skips that.
pub proof fn law_sync_saves_before_it_ends(v: SyncRunView, event: SyncEvent)
    requires
        v.under_way(),
    ensures
        v.step(event).under_way() || v.step(event).stage is Finalize,
{
}

/// Native stacks are brought in line only after a restack that left no branch behind.
pub proof fn law_reconcile_needs_clean_restack(v: SyncRunView, event: SyncEvent)
    requires
        v.under_way(),
        v.step(event).stage is Finalize,
        v.step(event).plan.reconcile_native,
    ensures
        event matches SyncEvent::Restacked { report } && report.failures@.len() == 0,
        v.step(event).error is None,
{
}

/// A sync whose restack left branches behind still goes through its last stage, and ends with
/// the error that counts and names them, unless that stage failed itself.
pub proof fn law_sync_ends_with_branches_left_behind(v: SyncRunView, report: RestackReport)
    requires
        v.stage is Restack,
        report.failures@.len() > 0,
    ensures
        ({
            let w = v.step(SyncEvent::Restacked { report });
            let e = w.step(SyncEvent::Finalized(None));
            &&& w.stage is Finalize
            &&& w.plan.skipped == report.failures@.len()
            &&& e.stage is Ended
            &&& e.error == Some(
                ErrorView::RestackIncomplete {
                    count: report.failures@.len(),
                    branches: joined(failed_names(report.failures@), ", "@),
                },
            )
        }),
{
}

/// A sync whose restack left no branch behind ends without an error, unless its last stage
/// failed.
pub proof fn law_clean_sync_ends_well(v: SyncRunView, report: RestackReport)
    requires
        v.stage is Restack,
        report.failures@.len() == 0,
    ensures
        ({
            let e = v.step(SyncEvent::Restacked { report }).step(SyncEvent::Finalized(None));
            e.stage is Ended && e.error is None
        }),
{
}

/// A sync in progress, from one stage to the next.
#[derive(Debug)]
pub struct SyncRun {
    pub trunk: String,
    pub remote: String,
    pub stage: SyncStage,
    pub plan: SyncFinalize,
    pub error: Option<EzError>,
}

impl View for SyncRun {
    type V = SyncRunView;

    open spec fn view(&self) -> SyncRunView {
        SyncRunView {
            trunk: self.trunk@,
            remote: self.remote@,
            stage: self.stage,
            plan: self.plan,
            error: error_view(self.error),
        }
    }
}

/// A sync at its start.
pub fn run(state: &StackState) -> (r: SyncRun)
    ensures
        r@ == (SyncRunView {
            trunk: state@.trunk,
            remote: state@.fetch_remote(),
            stage: SyncStage::Fetch,
            plan: SyncFinalize { restacked: 0, skipped: 0, reconcile_native: false },
            error: None,
        }),
{
    SyncRun {
        trunk: state.trunk.clone(),
        remote: state.fetch_remote(),
        stage: SyncStage::Fetch,
        plan: SyncFinalize { restacked: 0, skipped: 0, reconcile_native: false },
        error: None,
    }
}

impl SyncRun {
    /// The sync after a stage.
    pub fn step(self, event: SyncEvent) -> (r: SyncRun)
        ensures
            r@ == self@.step(event),
    {
        let mut s = self;
        match (s.stage, event) {
            (SyncStage::Fetch, SyncEvent::Done) => {
                s.stage = SyncStage::UpdateTrunk;
            },
            (SyncStage::Fetch, SyncEvent::Failed(t)) => {
                s.stage = SyncStage::Ended;
                s.error = Some(EzError::Other(t));
            },
            (SyncStage::UpdateTrunk, SyncEvent::Done) => {
                s.stage = SyncStage::Clean;
            },
            (SyncStage::UpdateTrunk, SyncEvent::Failed(t)) => {
                let text: String = String::from_str("Could not update trunk `").concat(
                    &s.trunk,
                ).concat("` from `").concat(&s.remote).concat("/").concat(&s.trunk).concat(
                    "` without overwriting local changes.\n  → commit or stash changes in the `",
                ).concat(&s.trunk).concat(
                    "` worktree, or run `ez sync --autostash` from that worktree.\n\nUnderlying error: ",
                ).concat(&t);
                s.stage = SyncStage::Ended;
                s.error = Some(EzError::UserMessage(text));
            },
            (SyncStage::Clean, SyncEvent::Done) => {
                s.stage = SyncStage::Prune;
            },
            (SyncStage::Prune, SyncEvent::Done) => {
                s.stage = SyncStage::Preflight;
            },
            (SyncStage::Preflight, SyncEvent::Preflighted { verdict, candidates }) => match verdict {
                Ok(_) => {
                    s.stage = SyncStage::Restack;
                },
                Err(e) => {
                    s.stage = SyncStage::Finalize;
                    s.plan = SyncFinalize {
                        restacked: 0,
                        skipped: candidates,
                        reconcile_native: false,
                    };
                    s.error = Some(e);
                },
            },
            (SyncStage::Restack, SyncEvent::Restacked { report }) => {
                s.stage = SyncStage::Finalize;
                s.plan = SyncFinalize {
                    restacked: report.restacked,
                    skipped: report.failures.len(),
                    reconcile_native: report.is_clean(),
                };
                s.error = report.left_behind();
            },
            (SyncStage::Finalize, SyncEvent::Finalized(error)) => {
                s.stage = SyncStage::Ended;
                if let Some(e) = error {
                    s.error = Some(e);
                }
            },
            _ => {},
        }
        s
    }
}

/// One thing that a sync would do.
#[derive(Debug)]
pub enum PreviewItem {
    /// Look at the pull request of a branch, and remove the branch's worktree if it is done.
    CheckPr { branch: String, worktree: Option<String> },
    /// Restack a branch.
    Restack { branch: String, parent: String },
}

/// The contents of a `PreviewItem`.
#[verifier::ext_equal]
pub enum PreviewView {
    CheckPr { branch: Seq<char>, worktree: Option<Seq<char>> },
    Restack { branch: Seq<char>, parent: Seq<char> },
}

impl View for PreviewItem {
    type V = PreviewView;

    open spec fn view(&self) -> PreviewView {
        match *self {
            PreviewItem::CheckPr { branch, worktree } => PreviewView::CheckPr {
                branch: branch@,
                worktree: opt_view(worktree),
            },
            PreviewItem::Restack { branch, parent } => PreviewView::Restack {
                branch: branch@,
                parent: parent@,
            },
        }
    }
}

/// The contents of a preview.
pub open spec fn preview_views(s: Seq<PreviewItem>) -> Seq<PreviewView> {
    s.map_values(|i: PreviewItem| i@)
}

/// The pull requests that a sync would look at, for the branches of `names`.
pub open spec fn checks_for(
    s: StackView,
    worktrees: Map<Seq<char>, Seq<char>>,
    names: Seq<Seq<char>>,
) -> Seq<PreviewView>
    decreases names.len(),
{
    if names.len() == 0 {
        Seq::empty()
    } else {
        let low = checks_for(s, worktrees, names.drop_last());
        let b = names.last();
        if s.managed(b) && s.branches[b].pr_number is Some {
            low.push(
                PreviewView::CheckPr {
                    branch: b,
                    worktree: if worktrees.contains_key(b) {
                        Some(worktrees[b])
                    } else {
                        None
                    },
                },
            )
        } else {
            low
        }
    }
}

/// The branches of `order` whose parent's tip is not the one recorded.
pub open spec fn restacks_for(s: StackView, g: GitView, order: Seq<Seq<char>>) -> Seq<PreviewView>
    decreases order.len(),
{
    if order.len() == 0 {
        Seq::empty()
    } else {
        let low = restacks_for(s, g, order.drop_last());
        let b = order.last();
        if s.managed(b) && g.tip(s.branches[b].parent) is Some && g.tip(s.branches[b].parent)->0
            != s.branches[b].parent_head {
            low.push(PreviewView::Restack { branch: b, parent: s.branches[b].parent })
        } else {
            low
        }
    }
}

/// What a sync would do: the pull requests it would look at, by branch, and the branches it would
/// restack, parents first.
pub fn preview(state: &StackState, git: &GitView, worktrees: &NameMap<String>) -> (r: (
    Vec<PreviewItem>,
    Vec<PreviewItem>,
))
    ensures
        preview_views(r.0@) == checks_for(
            state@,
            path_views(worktrees@),
            ranked(state@.branches.dom()),
        ),
        preview_views(r.1@) == restacks_for(
            state@,
            *git,
            topo(state@.branches, state@.trunk),
        ),
{
    let keys: Vec<String> = state.branches.keys();
    let ghost names = views(keys@);
    let ghost paths = path_views(worktrees@);
    proof {
        crate::names::lemma_ranked(names, state@.branches.dom());
    }
    let mut checks: Vec<PreviewItem> = Vec::new();
    let mut i: usize = 0;
    assert(names.take(0) =~= Seq::<Seq<char>>::empty());
    assert(preview_views(checks@) =~= Seq::<PreviewView>::empty());
    while i < keys.len()
        invariant
            i <= keys.len(),
            names == views(keys@),
            paths == path_views(worktrees@),
            preview_views(checks@) == checks_for(state@, paths, names.take(i as int)),
        decreases keys.len() - i,
    {
        let ghost held = preview_views(checks@);
        assert(names.take(i + 1).drop_last() =~= names.take(i as int));
        assert(names.take(i + 1).last() == keys@[i as int]@);
        if let Some(meta) = state.branches.get(&keys[i]) {
            if meta.pr_number.is_some() {
                let worktree: Option<String> = match worktrees.get(&keys[i]) {
                    Some(p) => Some(p.clone()),
                    None => None,
                };
                let item = PreviewItem::CheckPr { branch: keys[i].clone(), worktree };
                let ghost v = item@;
                checks.push(item);
                assert(preview_views(checks@) =~= held.push(v));
            }
        }
        i += 1;
    }
    assert(names.take(keys.len() as int) =~= names);
    let order: Vec<String> = state.topo_order();
    let ghost all = views(order@);
    let mut restacks: Vec<PreviewItem> = Vec::new();
    let mut k: usize = 0;
    assert(all.take(0) =~= Seq::<Seq<char>>::empty());
    assert(preview_views(restacks@) =~= Seq::<PreviewView>::empty());
    while k < order.len()
        invariant
            k <= order.len(),
            all == views(order@),
            preview_views(restacks@) == restacks_for(state@, *git, all.take(k as int)),
        decreases order.len() - k,
    {
        let ghost held = preview_views(restacks@);
        assert(all.take(k + 1).drop_last() =~= all.take(k as int));
        assert(all.take(k + 1).last() == order@[k as int]@);
        if let Some(meta) = state.branches.get(&order[k]) {
            if let Some(tip) = git.rev_parse(&meta.parent) {
                if !same(&tip, &meta.parent_head) {
                    let item = PreviewItem::Restack {
                        branch: order[k].clone(),
                        parent: meta.parent.clone(),
                    };
                    let ghost v = item@;
                    restacks.push(item);
                    assert(preview_views(restacks@) =~= held.push(v));
                }
            }
        }
        k += 1;
    }
    assert(all.take(order.len() as int) =~= all);
    (checks, restacks)
}

/// What a longer list adds to the candidates stands behind those of the shorter one: a branch is a
/// candidate where it is first named.
pub proof fn law_candidates_stand_where_first_named(
    trunk: Seq<char>,
    s: Seq<Seq<char>>,
    b: Seq<char>,
)
    ensures
        b == trunk || s.contains(b) ==> candidates_of(trunk, s.push(b)) == candidates_of(trunk, s),
        b != trunk && !s.contains(b) ==> candidates_of(trunk, s.push(b)) == candidates_of(
            trunk,
            s,
        ).push(b),
{
    law_candidates_are_the_others(trunk, s);
    assert(s.push(b).drop_last() =~= s);
}

/// A sync looks at every recorded branch, at those on the trunk with parents before children.
pub proof fn law_sync_looks_at_every_branch(s: StackView, r: Seq<Seq<char>>, b: Seq<char>)
    requires
        sync_order(s, r),
        breadth_first(s.branches, s.trunk, topo(s.branches, s.trunk)),
    ensures
        r.contains(b) <==> s.branches.contains_key(b),
        forall|i: int, j: int|
            #![trigger r[i], r[j]]
            0 <= i < r.len() && 0 <= j < r.len() && crate::stack::descends(
                s.branches,
                s.trunk,
                r[j],
            ) && s.branches[r[j]].parent == r[i] && r[i] != s.trunk ==> exists|k: int|
                0 <= k < j && #[trigger] r[k] == r[i],
{
    let on_trunk = topo(s.branches, s.trunk);
    let n = on_trunk.len() as int;
    let rest = r.skip(n);
    let low = r.take(n);
    crate::stack::law_descendants_are_listed(s.branches, s.trunk, on_trunk);
    if r.contains(b) {
        let i = choose|i: int| 0 <= i < r.len() && r[i] == b;
        if i < n {
            assert(low[i] == b);
            assert(s.branches.contains_key(on_trunk[i]));
        } else {
            assert(rest[i - n] == b);
            assert(rest.contains(b));
        }
    }
    if s.branches.contains_key(b) {
        if on_trunk.contains(b) {
            let i = choose|i: int| 0 <= i < on_trunk.len() && on_trunk[i] == b;
            assert(low[i] == b);
            assert(r[i] == b);
        } else {
            assert(rest.contains(b));
            let i = choose|i: int| 0 <= i < rest.len() && rest[i] == b;
            assert(r[i + n] == b);
        }
    }
    assert forall|i: int, j: int|
        #![trigger r[i], r[j]]
        0 <= i < r.len() && 0 <= j < r.len() && crate::stack::descends(
            s.branches,
            s.trunk,
            r[j],
        ) && s.branches[r[j]].parent == r[i] && r[i] != s.trunk implies exists|k: int|
        0 <= k < j && #[trigger] r[k] == r[i] by {
        assert(on_trunk.contains(r[j]));
        let x = choose|x: int| 0 <= x < on_trunk.len() && on_trunk[x] == r[j];
        assert(low[x] == r[j] && r[x] == r[j]);
        let k = choose|k: int| 0 <= k < x && #[trigger] on_trunk[k] == s.branches[on_trunk[x]].parent;
        assert(low[k] == r[i] && r[k] == r[i]);
        if j < n {
            assert(low[j] == r[j]);
            assert(on_trunk[j] == on_trunk[x]);
            assert(j == x);
        }
    }
}

/// The base of a pull request is updated exactly for branches named that are recorded with one,
/// and to the parent recorded for the branch.
pub proof fn law_bases_follow_recorded_parents(
    s: StackView,
    names: Seq<Seq<char>>,
    u: UpdateView,
)
    ensures
        updates_for(s, names).contains(u) <==> names.contains(u.branch) && s.branches.contains_key(
            u.branch,
        ) && s.branches[u.branch].pr_number == Some(u.pr_number) && s.branches[u.branch].parent
            == u.base,
    decreases names.len(),
{
    if names.len() > 0 {
        let low = names.drop_last();
        law_bases_follow_recorded_parents(s, low, u);
        assert(names =~= low.push(names.last()));
        vstd::seq_lib::lemma_seq_contains_after_push(low, names.last(), u.branch);
        let b = names.last();
        let last = UpdateView {
            branch: b,
            pr_number: s.branches[b].pr_number->0,
            base: s.branches[b].parent,
        };
        vstd::seq_lib::lemma_seq_contains_after_push(updates_for(s, low), last, u);
        if u.branch == b && s.managed(b) && s.branches[b].pr_number == Some(u.pr_number)
            && s.branches[b].parent == u.base {
            assert(u =~= last);
        }
    }
}

/// The pull requests asked after by number are those recorded for the branches named.
pub proof fn law_recorded_numbers_are_asked_for(
    s: StackView,
    names: Seq<Seq<char>>,
    e: (Seq<char>, u64),
)
    ensures
        numbered(s, names).contains(e) <==> names.contains(e.0) && s.branches.contains_key(e.0)
            && s.branches[e.0].pr_number == Some(e.1),
    decreases names.len(),
{
    if names.len() > 0 {
        let low = names.drop_last();
        law_recorded_numbers_are_asked_for(s, low, e);
        assert(names =~= low.push(names.last()));
        vstd::seq_lib::lemma_seq_contains_after_push(low, names.last(), e.0);
        let b = names.last();
        vstd::seq_lib::lemma_seq_contains_after_push(
            numbered(s, low),
            (b, s.branches[b].pr_number->0),
            e,
        );
    }
}

/// A preview announces a restack exactly for the branches of the order whose parent's tip git
/// knows and that is not the one recorded.
pub proof fn law_preview_announces_stale_branches(
    s: StackView,
    g: GitView,
    order: Seq<Seq<char>>,
    b: Seq<char>,
    p: Seq<char>,
)
    ensures
        restacks_for(s, g, order).contains(PreviewView::Restack { branch: b, parent: p })
            <==> order.contains(b) && s.branches.contains_key(b) && s.branches[b].parent == p && (
        g.tip(p) matches Some(tip) && tip != s.branches[b].parent_head),
    decreases order.len(),
{
    if order.len() > 0 {
        let low = order.drop_last();
        law_preview_announces_stale_branches(s, g, low, b, p);
        assert(order =~= low.push(order.last()));
        vstd::seq_lib::lemma_seq_contains_after_push(low, order.last(), b);
        let c = order.last();
        vstd::seq_lib::lemma_seq_contains_after_push(
            restacks_for(s, g, low),
            PreviewView::Restack { branch: c, parent: s.branches[c].parent },
            PreviewView::Restack { branch: b, parent: p },
        );
    }
}

/// A preview announces a look at exactly the recorded pull requests of the branches named, each
/// with the worktree that its branch has.
pub proof fn law_preview_announces_pull_requests(
    s: StackView,
    worktrees: Map<Seq<char>, Seq<char>>,
    names: Seq<Seq<char>>,
    b: Seq<char>,
    w: Option<Seq<char>>,
)
    ensures
        checks_for(s, worktrees, names).contains(PreviewView::CheckPr { branch: b, worktree: w })
            <==> names.contains(b) && s.branches.contains_key(b)
            && s.branches[b].pr_number is Some && (match w {
            Some(path) => worktrees.contains_key(b) && worktrees[b] == path,
            None => !worktrees.contains_key(b),
        }),
    decreases names.len(),
{
    if names.len() > 0 {
        let low = names.drop_last();
        law_preview_announces_pull_requests(s, worktrees, low, b, w);
        assert(names =~= low.push(names.last()));
        vstd::seq_lib::lemma_seq_contains_after_push(low, names.last(), b);
        let c = names.last();
        let own = if worktrees.contains_key(c) {
            Some(worktrees[c])
        } else {
            None
        };
        vstd::seq_lib::lemma_seq_contains_after_push(
            checks_for(s, worktrees, low),
            PreviewView::CheckPr { branch: c, worktree: own },
            PreviewView::CheckPr { branch: b, worktree: w },
        );
    }
}

/// A branch has a worktree exactly where one other than the main one is listed with it, and that
/// is its path; where several are, the last counts.
pub proof fn law_worktrees_are_found_by_branch(
    s: Seq<WorktreeInfo>,
    main_root: Seq<char>,
    w: WorktreeInfo,
    k: Seq<char>,
)
    ensures
        w.branch is None || w.path@ == main_root ==> worktrees_by_branch(s.push(w), main_root)
            == worktrees_by_branch(s, main_root),
        w.branch matches Some(b) ==> (w.path@ != main_root ==> worktrees_by_branch(
            s.push(w),
            main_root,
        ).contains_key(b@) && worktrees_by_branch(s.push(w), main_root)[b@] == w.path@),
        w.branch matches Some(b) ==> (b@ != k ==> (worktrees_by_branch(
            s.push(w),
            main_root,
        ).contains_key(k) <==> worktrees_by_branch(s, main_root).contains_key(k))
            && worktrees_by_branch(s.push(w), main_root)[k] == worktrees_by_branch(s, main_root)[k]),
        worktrees_by_branch(Seq::<WorktreeInfo>::empty(), main_root) == Map::<
            Seq<char>,
            Seq<char>,
        >::empty(),
{
    assert(s.push(w).drop_last() =~= s);
}

/// A worktree is orphaned only where its branch is neither recorded nor the trunk and it lies in
/// the directory that worktrees are made in; and all such are.
pub proof fn law_only_own_unrecorded_worktrees_are_orphaned(
    s: StackView,
    main_root: Seq<char>,
    m: Map<Seq<char>, Seq<char>>,
    b: Seq<char>,
)
    ensures
        orphaned(s, main_root, m, b) ==> m.contains_key(b) && !s.branches.contains_key(b) && b
            != s.trunk,
        orphaned(s, main_root, m, b) ==> begins(m[b], unslashed(main_root) + "/.worktrees/"@),
        m.contains_key(b) && !s.branches.contains_key(b) && b != s.trunk && begins(
            m[b],
            unslashed(main_root) + "/.worktrees/"@,
        ) ==> orphaned(s, main_root, m, b),
{
}

/// A sync goes through its stages in order: fetch, trunk, clean-up, pruning, preflight, restack,
/// end. Before the clean-up a failure ends it at once; a blocked preflight ends it without a
/// restack, with its error, and the candidates as skipped.
pub proof fn law_sync_goes_stage_by_stage(v: SyncRunView, text: String, e: EzError, n: usize)
    ensures
        v.stage is Fetch ==> v.step(SyncEvent::Done).stage is UpdateTrunk && v.step(
            SyncEvent::Failed(text),
        ).stage is Ended && v.step(SyncEvent::Failed(text)).error == Some(ErrorView::Other(text@)),
        v.stage is UpdateTrunk ==> v.step(SyncEvent::Done).stage is Clean && v.step(
            SyncEvent::Failed(text),
        ).stage is Ended && v.step(SyncEvent::Failed(text)).error is Some,
        v.stage is Clean ==> v.step(SyncEvent::Done).stage is Prune,
        v.stage is Prune ==> v.step(SyncEvent::Done).stage is Preflight,
        v.stage is Preflight ==> v.step(
            SyncEvent::Preflighted { verdict: Ok(()), candidates: n },
        ).stage is Restack,
        v.stage is Preflight ==> ({
            let w = v.step(SyncEvent::Preflighted { verdict: Err(e), candidates: n });
            &&& w.stage is Finalize
            &&& w.error == Some(e@)
            &&& w.plan.restacked == 0
            &&& w.plan.skipped == n
            &&& !w.plan.reconcile_native
        }),
        v.stage is Finalize ==> v.step(SyncEvent::Finalized(Some(e))).error == Some(e@) && v.step(
            SyncEvent::Finalized(Some(e)),
        ).stage is Ended,
{
}

/// A restack's numbers are those that a sync ends with, and native stacks are brought in line
/// exactly after one that left nothing behind.
pub proof fn law_sync_reports_its_restack(v: SyncRunView, report: RestackReport)
    requires
        v.stage is Restack,
    ensures
        v.step(SyncEvent::Restacked { report }).plan.restacked == report.restacked,
        v.step(SyncEvent::Restacked { report }).plan.skipped == report.failures@.len(),
        v.step(SyncEvent::Restacked { report }).plan.reconcile_native <==> report.failures@.len()
            == 0,
{
}

/// A branch is cleaned up for its pull request alone where it has one: merged or closed. Without
/// one, git's word decides.
pub proof fn law_pull_request_decides_alone(pr: PrInfo, via_git: bool, via_diff: bool)
    ensures
        reason_for(Some(pr), via_git, via_diff) is Some <==> pr.merged || pr.state@ == "CLOSED"@,
        pr.merged ==> reason_for(Some(pr), via_git, via_diff) == Some("merged"@),
        reason_for(None, via_git, via_diff) is Some <==> via_git || via_diff,
{
}

/// A sync restacks the branches above the trunk parents first, and the other recorded ones after
/// them by name; all are there, none twice.
pub proof fn law_sync_order_lists_all_branches(
    s: StackView,
    r: Seq<Seq<char>>,
    above: Seq<Seq<char>>,
    b: Seq<char>,
)
    requires
        sync_order(s, r),
        crate::stack::breadth_first(s.branches, s.trunk, above),
    ensures
        s.branches.contains_key(b) && b != s.trunk ==> r.contains(b),
        r.contains(b) ==> s.branches.contains_key(b),
        r.take(above.len() as int) == above,
        r.no_duplicates(),
{
    crate::stack::lemma_topo_unique(s.branches, s.trunk, above);
    crate::stack::law_descendants_are_listed(s.branches, s.trunk, above);
    let n = above.len() as int;
    let rest = r.skip(n);
    let others = Set::new(|b: Seq<char>| s.managed(b) && !above.contains(b));
    crate::names::lemma_sorted_distinct(rest);
    assert(r =~= above + rest);
    if s.branches.contains_key(b) && !above.contains(b) {
        assert(others.contains(b));
        assert(rest.contains(b));
        let i = choose|i: int| 0 <= i < rest.len() && rest[i] == b;
        assert(r[n + i] == b);
    }
    if above.contains(b) {
        let i = choose|i: int| 0 <= i < above.len() && above[i] == b;
        assert(r[i] == b);
    }
    if r.contains(b) {
        let i = choose|i: int| 0 <= i < r.len() && r[i] == b;
        if i < n {
            assert(above[i] == b);
        } else {
            assert(rest[i - n] == b);
            assert(rest.contains(b));
            assert(others.contains(b));
        }
    }
    assert forall|i: int, j: int| 0 <= i < r.len() && 0 <= j < r.len() && i != j implies r[i]
        != r[j] by {
        if i < n && j >= n {
            assert(above[i] == r[i]);
            assert(rest.contains(rest[j - n]));
            assert(others.contains(rest[j - n]));
        } else if j < n && i >= n {
            assert(above[j] == r[j]);
            assert(rest.contains(rest[i - n]));
            assert(others.contains(rest[i - n]));
        } else if i >= n {
            assert(rest[i - n] == r[i] && rest[j - n] == r[j]);
        } else {
            assert(above[i] == r[i] && above[j] == r[j]);
        }
    }
}

/// A receipt of a pull request whose base follows names it and the base, and an error exactly where
/// there was one.
pub proof fn law_base_receipt_tells_the_update(update: UpdateView, error: Option<Seq<char>>)
    ensures
        base_receipt(update, error) matches JsonView::Object(m) && {
            &&& m["branch"@] == JsonView::Text(update.branch)
            &&& m["pr_number"@] == JsonView::Number(update.pr_number)
            &&& m["base"@] == JsonView::Text(update.base)
            &&& m.contains_key("error"@) <==> error is Some
            &&& error is None ==> m["action"@] == JsonView::Text("pr_base_updated"@)
            &&& error is Some ==> m["action"@] == JsonView::Text("pr_base_update_error"@)
        },
{
    reveal_strlit("cmd");
    reveal_strlit("branch");
    reveal_strlit("action");
    reveal_strlit("pr_number");
    reveal_strlit("base");
    reveal_strlit("error");
    assert("cmd"@.len() == 3);
    assert("branch"@.len() == 6);
    assert("action"@.len() == 6);
    assert("pr_number"@.len() == 9);
    assert("base"@.len() == 4);
    assert("error"@.len() == 5);
    assert("branch"@[0] == 'b');
    assert("action"@[0] == 'a');
}

/// A receipt of a part that cannot be linked names its branches, its root and the reason.
pub proof fn law_skip_receipt_tells_the_component(cmd: Seq<char>, c: SkippedView)
    ensures
        skipped_receipt_for(cmd, c) matches JsonView::Object(m) && {
            &&& m["cmd"@] == JsonView::Text(cmd)
            &&& m["branches"@] == text_list(c.branches)
            &&& m["native_stack_action"@] == JsonView::Text("skipped"@)
            &&& m["native_stack_reason"@] == JsonView::Text(c.reason)
            &&& m["native_stack_root"@] == JsonView::Text(c.root)
        },
{
    reveal_strlit("cmd");
    reveal_strlit("branches");
    reveal_strlit("native_stack_action");
    reveal_strlit("native_stack_reason");
    reveal_strlit("native_stack_root");
    assert("cmd"@.len() == 3);
    assert("branches"@.len() == 8);
    assert("native_stack_action"@.len() == 19);
    assert("native_stack_reason"@.len() == 19);
    assert("native_stack_root"@.len() == 17);
    assert("native_stack_action"@[13] == 'a');
    assert("native_stack_reason"@[13] == 'r');
}

} // verus!
