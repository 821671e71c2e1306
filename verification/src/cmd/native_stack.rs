//! The local parent graph seen as GitHub's linear stacks.

use crate::branch_map::is_child;
use crate::json::{no_fields, number_list, text_list, Json, JsonObject, JsonView};
use crate::names::{lemma_ranked, lemma_sorted_distinct, rank_names, ranked, ranks};
use crate::stack::{
    below, breadth_first, children, descends, laid_out, topo, Forest, StackState, StackView,
};
use crate::github::{
    copy_numbers, same_numbers, LookupView, NativeStackLookup, NativeStackOutcome,
};
use crate::text::{
    copy_all, copy_opt, count, decimal, holds, lex_less, lex_less_total, number, opt_view, same, sorted, views,
};
use vstd::prelude::*;
use vstd::string::*;

verus! {

/// Branches stacked one on another, each with its pull request, from the trunk up.
#[derive(Debug)]
pub struct NativeStackChain {
    pub branches: Vec<String>,
    pub pr_numbers: Vec<u64>,
}

#[verifier::ext_equal]
pub struct ChainView {
    pub branches: Seq<Seq<char>>,
    pub pr_numbers: Seq<u64>,
}

impl View for NativeStackChain {
    type V = ChainView;

    open spec fn view(&self) -> ChainView {
        ChainView { branches: views(self.branches@), pr_numbers: self.pr_numbers@ }
    }
}

/// Branches that no linear stack can stand for, and why.
#[derive(Debug)]
pub struct SkippedNativeStackComponent {
    pub root: String,
    pub branches: Vec<String>,
    pub pr_numbers: Vec<u64>,
    pub reason: &'static str,
}

#[verifier::ext_equal]
pub struct SkippedView {
    pub root: Seq<char>,
    pub branches: Seq<Seq<char>>,
    pub pr_numbers: Seq<u64>,
    pub reason: Seq<char>,
}

impl View for SkippedNativeStackComponent {
    type V = SkippedView;

    open spec fn view(&self) -> SkippedView {
        SkippedView {
            root: self.root@,
            branches: views(self.branches@),
            pr_numbers: self.pr_numbers@,
            reason: self.reason@,
        }
    }
}

/// The chains that can be linked, and the branches that cannot.
#[derive(Debug)]
pub struct NativeStackPlan {
    pub chains: Vec<NativeStackChain>,
    pub skipped: Vec<SkippedNativeStackComponent>,
}

/// The contents of a list of chains.
pub open spec fn chain_views(s: Seq<NativeStackChain>) -> Seq<ChainView> {
    s.map_values(|c: NativeStackChain| c@)
}

/// The contents of a list of skipped components.
pub open spec fn skipped_views(s: Seq<SkippedNativeStackComponent>) -> Seq<SkippedView> {
    s.map_values(|c: SkippedNativeStackComponent| c@)
}

/// The recorded pull request of a branch.
pub open spec fn pr_of(m: Forest, b: Seq<char>) -> Option<u64> {
    if m.contains_key(b) {
        m[b].pr_number
    } else {
        None
    }
}

/// The recorded pull requests of branches, in their order.
pub open spec fn prs_of(m: Forest, names: Seq<Seq<char>>) -> Seq<u64>
    decreases names.len(),
{
    if names.len() == 0 {
        Seq::empty()
    } else {
        match pr_of(m, names.last()) {
            Some(n) => prs_of(m, names.drop_last()).push(n),
            None => prs_of(m, names.drop_last()),
        }
    }
}

/// A branch and all its descendants, parents before children.
pub open spec fn tree(m: Forest, root: Seq<char>) -> Seq<Seq<char>> {
    seq![root] + topo(m, root)
}

/// Whether several branches are stacked directly on `b`.
pub open spec fn forked(m: Forest, b: Seq<char>) -> bool {
    exists|c: Seq<char>, d: Seq<char>| #[trigger]
        is_child(m, b, c) && #[trigger] is_child(m, b, d) && c != d
}

/// Whether some branch of `names` has several children.
pub open spec fn any_forked(m: Forest, names: Seq<Seq<char>>) -> bool {
    exists|i: int| 0 <= i < names.len() && #[trigger] forked(m, names[i])
}

/// The chains of a line of branches that are complete, and the one still open: a branch
/// without a pull request ends a chain.
pub open spec fn cut(m: Forest, line: Seq<Seq<char>>) -> (Seq<Seq<Seq<char>>>, Seq<Seq<char>>)
    decreases line.len(),
{
    if line.len() == 0 {
        (Seq::empty(), Seq::empty())
    } else {
        let (done, open) = cut(m, line.drop_last());
        if pr_of(m, line.last()) is Some {
            (done, open.push(line.last()))
        } else {
            (close(done, open), Seq::empty())
        }
    }
}

/// The complete chains once the open one ends; an empty one leaves nothing.
pub open spec fn close(done: Seq<Seq<Seq<char>>>, open: Seq<Seq<char>>) -> Seq<Seq<Seq<char>>> {
    if open.len() == 0 {
        done
    } else {
        done.push(open)
    }
}

/// The longest runs of branches with pull requests in a line of branches.
pub open spec fn runs(m: Forest, line: Seq<Seq<char>>) -> Seq<Seq<Seq<char>>> {
    close(cut(m, line).0, cut(m, line).1)
}

/// A run of branches with their pull requests.
pub open spec fn chain_of(m: Forest, run: Seq<Seq<char>>) -> ChainView {
    ChainView { branches: run, pr_numbers: prs_of(m, run) }
}

/// The chains of the trees on `roots` that do not fork.
pub open spec fn rooted_chains(m: Forest, roots: Seq<Seq<char>>) -> Seq<ChainView>
    decreases roots.len(),
{
    if roots.len() == 0 {
        Seq::empty()
    } else {
        let before = rooted_chains(m, roots.drop_last());
        let line = tree(m, roots.last());
        if any_forked(m, line) {
            before
        } else {
            before + runs(m, line).map_values(|run: Seq<Seq<char>>| chain_of(m, run))
        }
    }
}

/// The trees on `roots` that fork.
pub open spec fn rooted_skips(m: Forest, roots: Seq<Seq<char>>) -> Seq<SkippedView>
    decreases roots.len(),
{
    if roots.len() == 0 {
        Seq::empty()
    } else {
        let before = rooted_skips(m, roots.drop_last());
        let line = tree(m, roots.last());
        if any_forked(m, line) {
            before.push(skipped_for(m, roots.last(), line.to_set(), "branching_component"@))
        } else {
            before
        }
    }
}

/// What is reported of a set of branches that is skipped.
pub open spec fn skipped_for(
    m: Forest,
    root: Seq<char>,
    branches: Set<Seq<char>>,
    reason: Seq<char>,
) -> SkippedView {
    SkippedView {
        root,
        branches: ranked(branches),
        pr_numbers: prs_of(m, ranked(branches)),
        reason,
    }
}

/// Whether `b` belongs to the tree of a branch stacked directly on the trunk.
pub open spec fn rooted(m: Forest, trunk: Seq<char>, b: Seq<char>) -> bool {
    exists|r: Seq<char>| #[trigger] is_child(m, trunk, r) && tree(m, r).contains(b)
}

/// The recorded branches outside all trees on the trunk.
pub open spec fn astray(m: Forest, trunk: Seq<char>) -> Set<Seq<char>> {
    Set::new(|b: Seq<char>| m.contains_key(b) && !rooted(m, trunk, b))
}

/// Whether one of two recorded branches is the other's parent.
pub open spec fn touching(m: Forest, a: Seq<char>, b: Seq<char>) -> bool {
    m.contains_key(a) && m.contains_key(b) && (m[a].parent == b || m[b].parent == a)
}

/// Whether `n` steps between touching branches of `within` lead from `a` to `b`.
pub open spec fn joined_in(
    m: Forest,
    within: Set<Seq<char>>,
    a: Seq<char>,
    b: Seq<char>,
    n: nat,
) -> bool
    decreases n,
{
    &&& within.contains(b)
    &&& if n == 0 {
        a == b
    } else {
        exists|c: Seq<char>| #[trigger]
            touching(m, c, b) && joined_in(m, within, a, c, (n - 1) as nat)
    }
}

/// The branches of `within` that steps between touching branches join to `a`.
pub open spec fn component(m: Forest, within: Set<Seq<char>>, a: Seq<char>) -> Set<Seq<char>> {
    Set::new(|b: Seq<char>| exists|n: nat| joined_in(m, within, a, b, n))
}

/// The first names of skipped components.
pub open spec fn skipped_roots(s: Seq<SkippedView>) -> Seq<Seq<char>> {
    s.map_values(|c: SkippedView| c.root)
}

/// `s` reports the components of the branches of `within`, each under its first branch, in the
/// order of those.
pub open spec fn strays(m: Forest, within: Set<Seq<char>>, s: Seq<SkippedView>) -> bool {
    &&& sorted(skipped_roots(s))
    &&& forall|i: int|
        0 <= i < s.len() ==> {
            &&& within.contains((#[trigger] s[i]).root)
            &&& s[i] == skipped_for(
                m,
                s[i].root,
                component(m, within, s[i].root),
                "invalid_parent_graph"@,
            )
            &&& forall|b: Seq<char>| #[trigger]
                component(m, within, s[i].root).contains(b) ==> b == s[i].root || lex_less(
                    s[i].root,
                    b,
                )
        }
    &&& forall|b: Seq<char>| #[trigger]
        within.contains(b) ==> exists|i: int|
            0 <= i < s.len() && component(m, within, (#[trigger] s[i]).root).contains(b)
}

/// What a plan says of a stack.
pub open spec fn plans(s: StackView, plan: NativeStackPlan) -> bool {
    let roots = ranked(children(s.branches, s.trunk));
    let forks = rooted_skips(s.branches, roots);
    let skipped = skipped_views(plan.skipped@);
    &&& ranks(roots, children(s.branches, s.trunk))
    &&& forall|r: Seq<char>| #[trigger]
        roots.contains(r) ==> breadth_first(s.branches, r, topo(s.branches, r))
    &&& forall|i: int|
        0 <= i < skipped.len() ==> sorted((#[trigger] skipped[i]).branches)
    &&& forall|i: int, b: Seq<char>|
        0 <= i < forks.len() ==> (#[trigger] skipped[i].branches.contains(b) <==> tree(
            s.branches,
            skipped[i].root,
        ).contains(b))
    &&& forall|i: int, b: Seq<char>|
        forks.len() <= i < skipped.len() ==> (#[trigger] skipped[i].branches.contains(b)
            <==> component(
            s.branches,
            astray(s.branches, s.trunk),
            skipped[i].root,
        ).contains(b))
    &&& chain_views(plan.chains@) == rooted_chains(s.branches, roots)
    &&& skipped.len() >= forks.len()
    &&& skipped.take(forks.len() as int) == forks
    &&& strays(s.branches, astray(s.branches, s.trunk), skipped.skip(forks.len() as int))
}

/// The recorded pull requests of branches, in their order.
fn pr_numbers_for_branches(state: &StackState, branches: &Vec<String>) -> (r: Vec<u64>)
    ensures
        r@ == prs_of(state@.branches, views(branches@)),
{
    let mut out: Vec<u64> = Vec::new();
    let mut i: usize = 0;
    let ghost all = views(branches@);
    assert(all.take(0) =~= Seq::<Seq<char>>::empty());
    while i < branches.len()
        invariant
            i <= branches.len(),
            all == views(branches@),
            out@ == prs_of(state@.branches, all.take(i as int)),
        decreases branches.len() - i,
    {
        assert(all.take(i + 1).drop_last() =~= all.take(i as int));
        assert(all.take(i + 1).last() == branches@[i as int]@);
        if let Some(meta) = state.branches.get(&branches[i]) {
            if let Some(n) = meta.pr_number {
                out.push(n);
            }
        }
        i += 1;
    }
    assert(all.take(branches.len() as int) =~= all);
    out
}

/// Whether some branch of `names` has several children.
fn any_fork(state: &StackState, names: &Vec<String>) -> (r: bool)
    ensures
        r == any_forked(state@.branches, views(names@)),
{
    let ghost m = state@.branches;
    let ghost all = views(names@);
    let mut i: usize = 0;
    while i < names.len()
        invariant
            i <= names.len(),
            m == state@.branches,
            all == views(names@),
            forall|j: int| 0 <= j < i ==> !#[trigger] forked(m, all[j]),
        decreases names.len() - i,
    {
        let kids: Vec<String> = state.children_of(&names[i]);
        proof {
            let k = views(kids@);
            lemma_sorted_distinct(k);
            assert(all[i as int] == names@[i as int]@);
            if kids.len() > 1 {
                assert(k.contains(k[0]) && k.contains(k[1]));
                assert(is_child(m, all[i as int], k[0]) && is_child(m, all[i as int], k[1]));
                assert(forked(m, all[i as int]));
            } else if forked(m, all[i as int]) {
                let (c, d) = choose|c: Seq<char>, d: Seq<char>| #[trigger]
                    is_child(m, all[i as int], c) && #[trigger] is_child(m, all[i as int], d) && c
                        != d;
                assert(k.contains(c) && k.contains(d));
            }
        }
        if kids.len() > 1 {
            return true;
        }
        i += 1;
    }
    false
}

/// Ends the open chain: it joins the complete ones unless it is empty.
fn push_native_stack_segment(
    chains: &mut Vec<NativeStackChain>,
    branches: &mut Vec<String>,
    pr_numbers: &mut Vec<u64>,
)
    requires
        old(branches).len() == old(pr_numbers).len(),
    ensures
        chain_views(final(chains)@) == if old(pr_numbers).len() == 0 {
            chain_views(old(chains)@)
        } else {
            chain_views(old(chains)@).push(
                ChainView { branches: views(old(branches)@), pr_numbers: old(pr_numbers)@ },
            )
        },
        final(branches).len() == 0,
        final(pr_numbers).len() == 0,
{
    if pr_numbers.len() > 0 {
        let ghost held = chain_views(chains@);
        let mut names: Vec<String> = Vec::new();
        let mut numbers: Vec<u64> = Vec::new();
        std::mem::swap(&mut names, branches);
        std::mem::swap(&mut numbers, pr_numbers);
        let chain = NativeStackChain { branches: names, pr_numbers: numbers };
        let ghost c = chain@;
        chains.push(chain);
        assert(chain_views(chains@) =~= held.push(c));
    }
}

/// Adds the runs of branches with pull requests in `line` to `chains`.
fn push_runs(state: &StackState, line: &Vec<String>, chains: &mut Vec<NativeStackChain>)
    ensures
        chain_views(final(chains)@) == chain_views(old(chains)@) + runs(
            state@.branches,
            views(line@),
        ).map_values(|run: Seq<Seq<char>>| chain_of(state@.branches, run)),
{
    let ghost m = state@.branches;
    let ghost all = views(line@);
    let ghost start = chain_views(chains@);
    let ghost f = |run: Seq<Seq<char>>| chain_of(m, run);
    let mut names: Vec<String> = Vec::new();
    let mut numbers: Vec<u64> = Vec::new();
    let mut i: usize = 0;
    proof {
        assert(all.take(0) =~= Seq::<Seq<char>>::empty());
        assert(views(names@) =~= Seq::<Seq<char>>::empty());
        assert(chain_views(chains@) =~= start + cut(m, all.take(0)).0.map_values(f));
    }
    while i < line.len()
        invariant
            i <= line.len(),
            m == state@.branches,
            all == views(line@),
            f == (|run: Seq<Seq<char>>| chain_of(m, run)),
            chain_views(chains@) == start + cut(m, all.take(i as int)).0.map_values(f),
            views(names@) == cut(m, all.take(i as int)).1,
            numbers@ == prs_of(m, views(names@)),
            names.len() == numbers.len(),
        decreases line.len() - i,
    {
        let ghost done = cut(m, all.take(i as int)).0;
        let ghost open = cut(m, all.take(i as int)).1;
        assert(all.take(i + 1).drop_last() =~= all.take(i as int));
        assert(all.take(i + 1).last() == line@[i as int]@);
        let pr: Option<u64> = match state.branches.get(&line[i]) {
            Some(meta) => meta.pr_number,
            None => None,
        };
        assert(pr == pr_of(m, line@[i as int]@));
        match pr {
            Some(n) => {
                names.push(line[i].clone());
                numbers.push(n);
                assert(views(names@) =~= open.push(line@[i as int]@));
                assert(views(names@).drop_last() =~= open);
            },
            None => {
                push_native_stack_segment(chains, &mut names, &mut numbers);
                proof {
                    lemma_close(m, start, done, open);
                    assert(views(names@) =~= Seq::<Seq<char>>::empty());
                    assert(numbers@ =~= Seq::<u64>::empty());
                }
            },
        }
        i += 1;
    }
    let ghost done = cut(m, all).0;
    let ghost open = cut(m, all).1;
    assert(all.take(line.len() as int) =~= all);
    push_native_stack_segment(chains, &mut names, &mut numbers);
    proof {
        lemma_close(m, start, done, open);
    }
}

proof fn lemma_close(
    m: Forest,
    start: Seq<ChainView>,
    done: Seq<Seq<Seq<char>>>,
    open: Seq<Seq<char>>,
)
    ensures
        open.len() > 0 ==> start + close(done, open).map_values(
            |run: Seq<Seq<char>>| chain_of(m, run),
        ) == (start + done.map_values(|run: Seq<Seq<char>>| chain_of(m, run))).push(
            chain_of(m, open),
        ),
        open.len() == 0 ==> start + close(done, open).map_values(
            |run: Seq<Seq<char>>| chain_of(m, run),
        ) == start + done.map_values(|run: Seq<Seq<char>>| chain_of(m, run)),
{
    let f = |run: Seq<Seq<char>>| chain_of(m, run);
    assert(start + done.push(open).map_values(f) =~= (start + done.map_values(f)).push(
        chain_of(m, open),
    ));
}

/// The recorded branches that touch `branch`.
fn neighbours(state: &StackState, branch: &str) -> (r: Vec<String>)
    ensures
        forall|k: Seq<char>| #[trigger]
            views(r@).contains(k) <==> touching(state@.branches, branch@, k),
{
    let ghost m = state@.branches;
    match state.branches.get(branch) {
        None => {
            let none: Vec<String> = Vec::new();
            assert(views(none@).len() == 0);
            none
        },
        Some(meta) => {
            let mut out: Vec<String> = state.children_of(branch);
            let ghost kids = views(out@);
            assert forall|k: Seq<char>| kids.contains(k) implies touching(m, branch@, k) by {
                assert(is_child(m, branch@, k));
            }
            if state.is_managed(&meta.parent) {
                out.push(meta.parent.clone());
                proof {
                    let s = views(out@);
                    assert(s =~= kids.push(meta.parent@));
                    assert forall|k: Seq<char>| #[trigger]
                        s.contains(k) <==> touching(m, branch@, k) by {
                        if s.contains(k) {
                            let j = choose|j: int| 0 <= j < s.len() && s[j] == k;
                            if j < kids.len() {
                                assert(kids[j] == k);
                                assert(kids.contains(k));
                            }
                        }
                        if touching(m, branch@, k) {
                            if m[branch@].parent == k {
                                assert(s[kids.len() as int] == k);
                            } else {
                                assert(is_child(m, branch@, k));
                                assert(kids.contains(k));
                                let j = choose|j: int| 0 <= j < kids.len() && kids[j] == k;
                                assert(s[j] == k);
                            }
                        }
                    }
                }
            } else {
                assert forall|k: Seq<char>| touching(m, branch@, k) implies #[trigger] views(
                    out@,
                ).contains(k) by {
                    assert(is_child(m, branch@, k));
                }
            }
            out
        },
    }
}

/// The branches of `within` that are joined to `start`.
fn component_of(state: &StackState, within: &Vec<String>, start: &String) -> (r: Vec<String>)
    requires
        views(within@).contains(start@),
    ensures
        forall|k: Seq<char>| #[trigger]
            views(r@).contains(k) <==> component(
                state@.branches,
                views(within@).to_set(),
                start@,
            ).contains(k),
{
    let ghost m = state@.branches;
    let ghost area = views(within@).to_set();
    let ghost goal = component(m, area, start@);
    let mut out: Vec<String> = Vec::new();
    out.push(start.clone());
    let mut i: usize = 0;
    proof {
        assert(views(out@) =~= seq![start@]);
        assert(joined_in(m, area, start@, start@, 0));
        assert(views(out@).contains(start@)) by {
            assert(views(out@)[0] == start@);
        }
    }
    while i < out.len()
        invariant
            i <= out.len(),
            m == state@.branches,
            area == views(within@).to_set(),
            goal == component(m, area, start@),
            views(out@).no_duplicates(),
            views(out@).contains(start@),
            forall|k: Seq<char>| #[trigger]
                views(out@).contains(k) ==> area.contains(k) && goal.contains(k),
            forall|a: int| 0 <= a < i ==> closed_at(m, area, #[trigger] views(out@)[a], views(out@)),
        decreases within.len() - i,
    {
        let ghost held = views(out@);
        let at: String = out[i].clone();
        assert(held[i as int] == at@);
        assert(held.contains(at@));
        let near: Vec<String> = neighbours(state, &at);
        let ghost names = views(near@);
        let mut q: usize = 0;
        while q < near.len()
            invariant
                q <= near.len(),
                i < held.len(),
                m == state@.branches,
                area == views(within@).to_set(),
                goal == component(m, area, start@),
                names == views(near@),
                forall|k: Seq<char>| #[trigger] names.contains(k) <==> touching(m, at@, k),
                goal.contains(at@),
                held.len() <= out.len(),
                held =~= views(out@).take(held.len() as int),
                views(out@).no_duplicates(),
                forall|k: Seq<char>| #[trigger]
                    views(out@).contains(k) ==> area.contains(k) && goal.contains(k),
                forall|a: int|
                    0 <= a < q && area.contains(names[a]) ==> views(out@).contains(
                        #[trigger] names[a],
                    ),
            decreases near.len() - q,
        {
            let ghost so_far = views(out@);
            assert(names[q as int] == near@[q as int]@);
            assert(names.contains(names[q as int]));
            if holds(within, &near[q]) && !holds(&out, &near[q]) {
                out.push(near[q].clone());
                proof {
                    let k = names[q as int];
                    assert(views(out@) =~= so_far.push(k));
                    let n = choose|n: nat| joined_in(m, area, start@, at@, n);
                    assert(touching(m, at@, k));
                    assert(joined_in(m, area, start@, k, (n + 1) as nat));
                    assert forall|b: Seq<char>| #[trigger] views(out@).contains(b) implies (
                    area.contains(b) && goal.contains(b)) by {
                        let z = choose|z: int| 0 <= z < views(out@).len() && views(out@)[z] == b;
                        if z < so_far.len() {
                            assert(so_far[z] == b);
                            assert(so_far.contains(b));
                        }
                    }
                    assert forall|a: int| 0 <= a < q + 1 && area.contains(names[a]) implies views(
                        out@,
                    ).contains(#[trigger] names[a]) by {
                        if a < q {
                            assert(so_far.contains(names[a]));
                            let z = choose|z: int| 0 <= z < so_far.len() && so_far[z] == names[a];
                            assert(views(out@)[z] == names[a]);
                        } else {
                            assert(views(out@)[so_far.len() as int] == names[a]);
                        }
                    }
                }
            }
            q += 1;
        }
        proof {
            let now = views(out@);
            assert forall|a: int| 0 <= a < i + 1 implies closed_at(
                m,
                area,
                #[trigger] now[a],
                now,
            ) by {
                assert(now[a] == held[a]);
                if a < i {
                    assert(closed_at(m, area, held[a], held));
                    assert forall|k: Seq<char>| #[trigger]
                        touching(m, now[a], k) && area.contains(k) implies now.contains(k) by {
                        assert(held.contains(k));
                        let z = choose|z: int| 0 <= z < held.len() && held[z] == k;
                        assert(now[z] == k);
                    }
                } else {
                    assert forall|k: Seq<char>| #[trigger]
                        touching(m, now[a], k) && area.contains(k) implies now.contains(k) by {
                        assert(names.contains(k));
                        let z = choose|z: int| 0 <= z < names.len() && names[z] == k;
                        assert(now.contains(names[z]));
                    }
                }
            }
            assert(now.contains(start@)) by {
                let z = choose|z: int| 0 <= z < held.len() && held[z] == start@;
                assert(now[z] == start@);
            }
            now.unique_seq_to_set();
            vstd::set_lib::lemma_len_subset(now.to_set(), area);
            vstd::seq_lib::seq_to_set_is_finite(views(within@));
            views(within@).lemma_cardinality_of_set();
        }
        i += 1;
    }
    proof {
        let s = views(out@);
        assert forall|k: Seq<char>| goal.contains(k) implies #[trigger] s.contains(k) by {
            let n = choose|n: nat| joined_in(m, area, start@, k, n);
            lemma_closed_holds(m, area, start@, k, n, s);
        }
    }
    out
}

/// Whether `s` holds what touches `a` in `area`.
spec fn closed_at(m: Forest, area: Set<Seq<char>>, a: Seq<char>, s: Seq<Seq<char>>) -> bool {
    forall|k: Seq<char>| #[trigger] touching(m, a, k) && area.contains(k) ==> s.contains(k)
}

proof fn lemma_closed_holds(
    m: Forest,
    area: Set<Seq<char>>,
    start: Seq<char>,
    k: Seq<char>,
    n: nat,
    s: Seq<Seq<char>>,
)
    requires
        joined_in(m, area, start, k, n),
        s.contains(start),
        forall|a: int| 0 <= a < s.len() ==> closed_at(m, area, #[trigger] s[a], s),
    ensures
        s.contains(k),
    decreases n,
{
    if n > 0 {
        let c = choose|c: Seq<char>| #[trigger]
            touching(m, c, k) && joined_in(m, area, start, c, (n - 1) as nat);
        lemma_closed_holds(m, area, start, c, (n - 1) as nat, s);
        let z = choose|z: int| 0 <= z < s.len() && s[z] == c;
        assert(closed_at(m, area, s[z], s));
    }
}

/// A component that holds a branch joined to `r` holds `r`.
proof fn lemma_component_back(
    m: Forest,
    area: Set<Seq<char>>,
    q: Seq<char>,
    r: Seq<char>,
    b: Seq<char>,
    n: nat,
)
    requires
        component(m, area, q).contains(b),
        joined_in(m, area, r, b, n),
    ensures
        component(m, area, q).contains(r),
    decreases n,
{
    if n > 0 {
        let c = choose|c: Seq<char>| #[trigger]
            touching(m, c, b) && joined_in(m, area, r, c, (n - 1) as nat);
        let k = choose|k: nat| joined_in(m, area, q, b, k);
        assert(touching(m, b, c));
        assert(joined_in(m, area, q, c, (k + 1) as nat));
        lemma_component_back(m, area, q, r, c, (n - 1) as nat);
    }
}

/// Splits the trees on the trunk into chains and forked components, and lists the branches of
/// every tree.
fn plan_roots(state: &StackState, visited: &mut Vec<String>) -> (r: NativeStackPlan)
    requires
        old(visited).len() == 0,
    ensures
        chain_views(r.chains@) == rooted_chains(
            state@.branches,
            ranked(children(state@.branches, state@.trunk)),
        ),
        skipped_views(r.skipped@) == rooted_skips(
            state@.branches,
            ranked(children(state@.branches, state@.trunk)),
        ),
        ranks(
            ranked(children(state@.branches, state@.trunk)),
            children(state@.branches, state@.trunk),
        ),
        forall|r0: Seq<char>| #[trigger]
            ranked(children(state@.branches, state@.trunk)).contains(r0) ==> breadth_first(
                state@.branches,
                r0,
                topo(state@.branches, r0),
            ),
        forall|i: int|
            0 <= i < r.skipped.len() ==> #[trigger] ranks(
                skipped_views(r.skipped@)[i].branches,
                tree(state@.branches, skipped_views(r.skipped@)[i].root).to_set(),
            ),
        forall|b: Seq<char>| #[trigger]
            views(final(visited)@).contains(b) <==> rooted(state@.branches, state@.trunk, b),
{
    let ghost m = state@.branches;
    let roots: Vec<String> = state.children_of(&state.trunk);
    let ghost names = views(roots@);
    proof {
        lemma_ranked(names, children(m, state@.trunk));
    }
    let mut chains: Vec<NativeStackChain> = Vec::new();
    let mut skipped: Vec<SkippedNativeStackComponent> = Vec::new();
    let mut i: usize = 0;
    proof {
        assert(names.take(0) =~= Seq::<Seq<char>>::empty());
        assert(chain_views(chains@) =~= Seq::<ChainView>::empty());
        assert(skipped_views(skipped@) =~= Seq::<SkippedView>::empty());
        assert(views(visited@) =~= Seq::<Seq<char>>::empty());
    }
    while i < roots.len()
        invariant
            i <= roots.len(),
            m == state@.branches,
            names == views(roots@),
            chain_views(chains@) == rooted_chains(m, names.take(i as int)),
            skipped_views(skipped@) == rooted_skips(m, names.take(i as int)),
            forall|j: int|
                0 <= j < i ==> breadth_first(m, #[trigger] names[j], topo(m, names[j])),
            forall|j: int|
                0 <= j < skipped.len() ==> #[trigger] ranks(
                    skipped_views(skipped@)[j].branches,
                    tree(m, skipped_views(skipped@)[j].root).to_set(),
                ),
            forall|b: Seq<char>| #[trigger]
                views(visited@).contains(b) <==> exists|j: int|
                    0 <= j < i && tree(m, #[trigger] names[j]).contains(b),
        decreases roots.len() - i,
    {
        let ghost root = roots@[i as int]@;
        proof {
            assert(names.take(i + 1).drop_last() =~= names.take(i as int));
            assert(names.take(i + 1).last() == root);
            assert(names[i as int] == root);
        }
        let mut line: Vec<String> = Vec::new();
        line.push(roots[i].clone());
        let mut above: Vec<String> = state.descendants_topo(&roots[i]);
        let ghost upper = views(above@);
        line.append(&mut above);
        assert(views(line@) =~= tree(m, root));
        let ghost seen = views(visited@);
        let mut again: Vec<String> = copy_all(&line);
        visited.append(&mut again);
        proof {
            assert(views(visited@) =~= seen + tree(m, root));
            assert forall|b: Seq<char>| #[trigger] views(visited@).contains(b) <==> exists|j: int|
                0 <= j < i + 1 && tree(m, #[trigger] names[j]).contains(b) by {
                let t = tree(m, root);
                if views(visited@).contains(b) {
                    let z = choose|z: int| 0 <= z < views(visited@).len() && views(visited@)[z]
                        == b;
                    if z < seen.len() {
                        assert(seen[z] == b);
                        assert(seen.contains(b));
                        let j = choose|j: int| 0 <= j < i && tree(m, #[trigger] names[j]).contains(b);
                        assert(tree(m, names[j]).contains(b));
                    } else {
                        assert(t[z - seen.len()] == b);
                        assert(tree(m, names[i as int]).contains(b));
                    }
                }
                if exists|j: int| 0 <= j < i + 1 && tree(m, #[trigger] names[j]).contains(b) {
                    let j = choose|j: int| 0 <= j < i + 1 && tree(m, #[trigger] names[j]).contains(b);
                    if j < i {
                        assert(seen.contains(b));
                        let z = choose|z: int| 0 <= z < seen.len() && seen[z] == b;
                        assert(views(visited@)[z] == b);
                    } else {
                        let z = choose|z: int| 0 <= z < t.len() && t[z] == b;
                        assert(views(visited@)[seen.len() + z] == b);
                    }
                }
            }
        }
        if any_fork(state, &line) {
            let ghost held = skipped_views(skipped@);
            let branches: Vec<String> = rank_names(&line);
            let component = SkippedNativeStackComponent {
                root: roots[i].clone(),
                pr_numbers: pr_numbers_for_branches(state, &branches),
                branches,
                reason: "branching_component",
            };
            let ghost c = component@;
            skipped.push(component);
            proof {
                assert(skipped_views(skipped@) =~= held.push(c));
                assert forall|j: int| 0 <= j < skipped.len() implies #[trigger] ranks(
                    skipped_views(skipped@)[j].branches,
                    tree(m, skipped_views(skipped@)[j].root).to_set(),
                ) by {
                    if j < held.len() {
                        assert(ranks(held[j].branches, tree(m, held[j].root).to_set()));
                    }
                }
            }
        } else {
            push_runs(state, &line, &mut chains);
        }
        i += 1;
    }
    proof {
        assert(names.take(roots.len() as int) =~= names);
        assert forall|r0: Seq<char>| #[trigger] names.contains(r0) implies breadth_first(
            m,
            r0,
            topo(m, r0),
        ) by {
            let j = choose|j: int| 0 <= j < names.len() && names[j] == r0;
            assert(breadth_first(m, names[j], topo(m, names[j])));
        }
        assert forall|b: Seq<char>| #[trigger] views(visited@).contains(b) <==> rooted(
            m,
            state@.trunk,
            b,
        ) by {
            if views(visited@).contains(b) {
                let j = choose|j: int| 0 <= j < roots.len() && tree(m, #[trigger] names[j]).contains(b);
                assert(names.contains(names[j]));
                assert(is_child(m, state@.trunk, names[j]));
            }
            if rooted(m, state@.trunk, b) {
                let r = choose|r: Seq<char>| #[trigger]
                    is_child(m, state@.trunk, r) && tree(m, r).contains(b);
                assert(names.contains(r));
                let j = choose|j: int| 0 <= j < names.len() && names[j] == r;
                assert(tree(m, names[j]).contains(b));
            }
        }
    }
    NativeStackPlan { chains, skipped }
}

/// The recorded branches outside all trees on the trunk, by name.
fn astray_names(state: &StackState, visited: &Vec<String>) -> (r: Vec<String>)
    requires
        forall|b: Seq<char>| #[trigger]
            views(visited@).contains(b) <==> rooted(state@.branches, state@.trunk, b),
    ensures
        ranks(views(r@), astray(state@.branches, state@.trunk)),
{
    let keys: Vec<String> = state.branches.keys();
    let ghost names = views(keys@);
    let ghost m = state@.branches;
    let ghost trunk = state@.trunk;
    let mut out: Vec<String> = Vec::new();
    let mut i: usize = 0;
    while i < keys.len()
        invariant
            i <= keys.len(),
            names == views(keys@),
            sorted(names),
            forall|b: Seq<char>| #[trigger]
                views(visited@).contains(b) <==> rooted(m, trunk, b),
            sorted(views(out@)),
            forall|b: Seq<char>| #[trigger]
                views(out@).contains(b) <==> !rooted(m, trunk, b) && names.take(i as int).contains(b),
        decreases keys.len() - i,
    {
        let ghost held = views(out@);
        let ghost name = names[i as int];
        assert(name == keys@[i as int]@);
        let ghost low = names.take(i as int);
        assert(names.take(i + 1) =~= low.push(name));
        proof {
            assert forall|b: Seq<char>| names.take(i + 1).contains(b) == (low.contains(b) || b
                == name) by {
                vstd::seq_lib::lemma_seq_contains_after_push(low, name, b);
            }
        }
        if !holds(visited, &keys[i]) {
            out.push(keys[i].clone());
            proof {
                let now = views(out@);
                assert(now =~= held.push(name));
                assert forall|a: int, b: int| 0 <= a < b < now.len() implies lex_less(
                    #[trigger] now[a],
                    #[trigger] now[b],
                ) by {
                    if b == held.len() {
                        assert(held.contains(held[a]));
                        let z = choose|z: int| 0 <= z < low.len() && low[z] == held[a];
                        assert(lex_less(names[z], names[i as int]));
                    } else {
                        assert(lex_less(held[a], held[b]));
                    }
                }
                assert forall|b: Seq<char>| #[trigger] now.contains(b) <==> !rooted(m, trunk, b)
                    && names.take(i + 1).contains(b) by {
                    vstd::seq_lib::lemma_seq_contains_after_push(held, name, b);
                    assert(now.contains(b) == (held.contains(b) || b == name));
                    vstd::seq_lib::lemma_seq_contains_after_push(low, name, b);
                    assert(!views(visited@).contains(name));
                }
            }
        } else {
            assert forall|b: Seq<char>| #[trigger] views(out@).contains(b) <==> !rooted(m, trunk, b)
                && names.take(i + 1).contains(b) by {
                assert(views(visited@).contains(name));
            }
        }
        i += 1;
    }
    proof {
        assert(names.take(keys.len() as int) =~= names);
        assert forall|b: Seq<char>| #[trigger] views(out@).contains(b) <==> astray(
            m,
            trunk,
        ).contains(b) by {
            assert(names.contains(b) <==> m.contains_key(b));
        }
    }
    out
}

/// The components of the branches of `rest`, each under its first branch.
#[verifier::rlimit(30)]
fn plan_strays(state: &StackState, rest: &Vec<String>) -> (skipped: Vec<
    SkippedNativeStackComponent,
>)
    requires
        sorted(views(rest@)),
    ensures
        strays(state@.branches, views(rest@).to_set(), skipped_views(skipped@)),
        forall|i: int|
            0 <= i < skipped.len() ==> #[trigger] ranks(
                skipped_views(skipped@)[i].branches,
                component(
                    state@.branches,
                    views(rest@).to_set(),
                    skipped_views(skipped@)[i].root,
                ),
            ),
{
    let ghost m = state@.branches;
    let ghost names = views(rest@);
    let ghost area = names.to_set();
    let mut skipped: Vec<SkippedNativeStackComponent> = Vec::new();
    let mut seen: Vec<String> = Vec::new();
    let mut i: usize = 0;
    let ghost mut tail: Seq<SkippedView> = Seq::empty();
    proof {
        assert(skipped_views(skipped@) =~= tail);
        assert(views(seen@) =~= Seq::<Seq<char>>::empty());
    }
    while i < rest.len()
        invariant
            i <= rest.len(),
            m == state@.branches,
            names == views(rest@),
            sorted(names),
            names.to_set() == area,
            skipped_views(skipped@) == tail,
            sorted(skipped_roots(tail)),
            forall|a: int|
                0 <= a < tail.len() ==> {
                    &&& names.take(i as int).contains((#[trigger] tail[a]).root)
                    &&& stray(m, area, tail[a])
                    &&& ranks(tail[a].branches, component(m, area, tail[a].root))
                },
            forall|b: Seq<char>| #[trigger]
                views(seen@).contains(b) <==> exists|a: int|
                    0 <= a < tail.len() && component(m, area, (#[trigger] tail[a]).root).contains(b),
            forall|a: int| 0 <= a < i ==> views(seen@).contains(#[trigger] names[a]),
        decreases rest.len() - i,
    {
        let ghost start = names[i as int];
        let ghost before = tail;
        let ghost low = names.take(i as int);
        proof {
            assert(start == rest@[i as int]@);
            assert(names.contains(start));
            assert(names.take(i + 1) =~= low.push(start));
            assert forall|a: int| 0 <= a < tail.len() implies names.take(i + 1).contains(
                (#[trigger] tail[a]).root,
            ) by {
                vstd::seq_lib::lemma_seq_contains_after_push(low, start, tail[a].root);
            }
        }
        if !holds(&seen, &rest[i]) {
            let mut joined: Vec<String> = component_of(state, rest, &rest[i]);
            let ghost whole = component(m, area, start);
            let branches: Vec<String> = rank_names(&joined);
            assert(views(joined@).to_set() =~= whole);
            let entry = SkippedNativeStackComponent {
                root: rest[i].clone(),
                pr_numbers: pr_numbers_for_branches(state, &branches),
                branches,
                reason: "invalid_parent_graph",
            };
            let ghost e = entry@;
            let ghost held = views(seen@);
            let ghost more = views(joined@);
            let ghost listed = skipped_views(skipped@);
            skipped.push(entry);
            assert(skipped_views(skipped@) =~= listed.push(e));
            seen.append(&mut joined);
            proof {
                tail = tail.push(e);
                assert(skipped_views(skipped@) =~= tail);
                assert(e == skipped_for(m, start, whole, "invalid_parent_graph"@));
                assert(joined_in(m, area, start, start, 0));
                assert forall|b: Seq<char>| #[trigger] whole.contains(b) implies b == start
                    || lex_less(start, b) by {
                    let n = choose|n: nat| joined_in(m, area, start, b, n);
                    assert(names.contains(b));
                    let z = choose|z: int| 0 <= z < names.len() && names[z] == b;
                    if z < i {
                        assert(held.contains(names[z]));
                        let a = choose|a: int|
                            0 <= a < before.len() && component(m, area, (#[trigger] before[a]).root).contains(b);
                        lemma_component_back(m, area, before[a].root, start, b, n);
                        assert(held.contains(start));
                    } else if z > i {
                        assert(lex_less(names[i as int], names[z]));
                    }
                }
                assert(stray(m, area, e));
                assert forall|a: int, b: int| 0 <= a < b < tail.len() implies lex_less(
                    #[trigger] skipped_roots(tail)[a],
                    #[trigger] skipped_roots(tail)[b],
                ) by {
                    if b < before.len() {
                        assert(lex_less(skipped_roots(before)[a], skipped_roots(before)[b]));
                    } else {
                        assert(low.contains(before[a].root));
                        let z = choose|z: int| 0 <= z < low.len() && low[z] == before[a].root;
                        assert(lex_less(names[z], names[i as int]));
                    }
                }
                assert forall|a: int| 0 <= a < tail.len() implies {
                    &&& names.take(i + 1).contains((#[trigger] tail[a]).root)
                    &&& stray(m, area, tail[a])
                    &&& ranks(tail[a].branches, component(m, area, tail[a].root))
                } by {
                    if a == before.len() {
                        assert(names.take(i + 1)[i as int] == start);
                    } else {
                        assert(tail[a] == before[a]);
                    }
                }
                let now = views(seen@);
                assert(now =~= held + more);
                assert forall|b: Seq<char>| #[trigger] now.contains(b) <==> exists|a: int|
                    0 <= a < tail.len() && component(m, area, (#[trigger] tail[a]).root).contains(
                        b,
                    ) by {
                    if now.contains(b) {
                        let z = choose|z: int| 0 <= z < now.len() && now[z] == b;
                        if z < held.len() {
                            assert(held[z] == b);
                            assert(held.contains(b));
                            let a = choose|a: int|
                                0 <= a < before.len() && component(m, area, (#[trigger] before[a]).root).contains(b);
                            assert(tail[a] == before[a]);
                        } else {
                            assert(more[z - held.len()] == b);
                            assert(more.contains(b));
                            assert(tail[before.len() as int] == e);
                        }
                    }
                    if exists|a: int|
                        0 <= a < tail.len() && component(m, area, (#[trigger] tail[a]).root).contains(b) {
                        let a = choose|a: int|
                            0 <= a < tail.len() && component(m, area, (#[trigger] tail[a]).root).contains(b);
                        if a < before.len() {
                            assert(before[a] == tail[a]);
                            assert(held.contains(b));
                            let z = choose|z: int| 0 <= z < held.len() && held[z] == b;
                            assert(now[z] == b);
                        } else {
                            assert(more.contains(b));
                            let z = choose|z: int| 0 <= z < more.len() && more[z] == b;
                            assert(now[held.len() + z] == b);
                        }
                    }
                }
                assert forall|a: int| 0 <= a < i + 1 implies now.contains(#[trigger] names[a]) by {
                    if a < i {
                        assert(held.contains(names[a]));
                        let z = choose|z: int| 0 <= z < held.len() && held[z] == names[a];
                        assert(now[z] == names[a]);
                    } else {
                        assert(whole.contains(start));
                        assert(tail[before.len() as int].root == start);
                        assert(now.contains(start));
                    }
                }
            }
        }
        i += 1;
    }
    proof {
        assert forall|a: int| 0 <= a < tail.len() implies area.contains(
            (#[trigger] tail[a]).root,
        ) by {
            let r = tail[a].root;
            let low = names.take(rest.len() as int);
            assert(low =~= names);
            assert(names.contains(r));
        }
        assert forall|b: Seq<char>| #[trigger] area.contains(b) implies exists|a: int|
            0 <= a < tail.len() && component(m, area, (#[trigger] tail[a]).root).contains(b) by {
            assert(names.contains(b));
            let z = choose|z: int| 0 <= z < names.len() && names[z] == b;
            assert(views(seen@).contains(names[z]));
        }
        assert(strays(m, area, tail));
    }
    skipped
}

/// The chains of pull requests that GitHub can link, and the branches that it cannot.
///
/// Each branch right on the trunk starts a tree. A tree without forks becomes runs of
/// branches with pull requests; a branch without one ends a run. A tree that forks is skipped
/// whole, since any order of its pull requests would be made up. Recorded branches that no
/// tree holds are skipped by connected component.
pub fn native_stack_plan(state: &StackState) -> (plan: NativeStackPlan)
    ensures
        plans(state@, plan),
{
    let ghost m = state@.branches;
    let ghost area = astray(m, state@.trunk);
    let mut visited: Vec<String> = Vec::new();
    let plan: NativeStackPlan = plan_roots(state, &mut visited);
    let chains = plan.chains;
    let mut skipped = plan.skipped;
    let ghost forks = skipped_views(skipped@);
    let rest: Vec<String> = astray_names(state, &visited);
    let ghost names = views(rest@);
    proof {
        assert(names.to_set() =~= area) by {
            assert forall|k: Seq<char>| names.to_set().contains(k) == area.contains(k) by {
                assert(names.contains(k) == area.contains(k));
            }
        }
    }
    let mut others: Vec<SkippedNativeStackComponent> = plan_strays(state, &rest);
    let ghost tail = skipped_views(others@);
    skipped.append(&mut others);
    let plan = NativeStackPlan { chains, skipped };
    proof {
        let all = skipped_views(plan.skipped@);
        assert(all =~= forks + tail);
        assert(all.take(forks.len() as int) =~= forks);
        assert(all.skip(forks.len() as int) =~= tail);
        assert forall|i: int| 0 <= i < all.len() implies sorted((#[trigger] all[i]).branches) by {
            if i < forks.len() {
                assert(all[i] == forks[i]);
                assert(ranks(forks[i].branches, tree(m, forks[i].root).to_set()));
            } else {
                let j = i - forks.len();
                assert(all[i] == tail[j]);
                assert(ranks(tail[j].branches, component(m, area, tail[j].root)));
            }
        }
        assert forall|i: int, b: Seq<char>|
            0 <= i < forks.len() implies (#[trigger] all[i].branches.contains(b) <==> tree(
            m,
            all[i].root,
        ).contains(b)) by {
            assert(all[i] == forks[i]);
            assert(ranks(forks[i].branches, tree(m, forks[i].root).to_set()));
        }
        assert forall|i: int, b: Seq<char>|
            forks.len() <= i < all.len() implies (#[trigger] all[i].branches.contains(b)
            <==> component(m, area, all[i].root).contains(b)) by {
            let j = i - forks.len();
            assert(all[i] == tail[j]);
            assert(ranks(tail[j].branches, component(m, area, tail[j].root)));
        }
    }
    plan
}

/// Whether `e` reports the component of its first branch.
spec fn stray(m: Forest, area: Set<Seq<char>>, e: SkippedView) -> bool {
    &&& e == skipped_for(m, e.root, component(m, area, e.root), "invalid_parent_graph"@)
    &&& forall|b: Seq<char>| #[trigger]
        component(m, area, e.root).contains(b) ==> b == e.root || lex_less(e.root, b)
}

/// The chains with at least two pull requests.
pub open spec fn linkable(s: Seq<ChainView>) -> Seq<ChainView> {
    s.filter(|c: ChainView| c.pr_numbers.len() >= 2)
}

/// The chains with at least two pull requests: those that a native stack can link.
pub fn linkable_chains(plan: &NativeStackPlan) -> (r: Vec<&NativeStackChain>)
    ensures
        Seq::new(r@.len(), |i: int| r@[i]@) == linkable(chain_views(plan.chains@)),
{
    let ghost long = |c: ChainView| c.pr_numbers.len() >= 2;
    let ghost all = chain_views(plan.chains@);
    let ghost f = |c: &NativeStackChain| c@;
    let mut out: Vec<&NativeStackChain> = Vec::new();
    let mut i: usize = 0;
    assert(all.take(0) =~= Seq::<ChainView>::empty());
    reveal(Seq::filter);
    assert(out@.map_values(f) =~= all.take(0).filter(long));
    while i < plan.chains.len()
        invariant
            i <= plan.chains.len(),
            all == chain_views(plan.chains@),
            long == (|c: ChainView| c.pr_numbers.len() >= 2),
            f == (|c: &NativeStackChain| c@),
            out@.map_values(f) == all.take(i as int).filter(long),
        decreases plan.chains.len() - i,
    {
        let ghost held = out@.map_values(f);
        let chain: &NativeStackChain = &plan.chains[i];
        proof {
            assert(all.take(i + 1) =~= all.take(i as int).push(all[i as int]));
            all.take(i as int).lemma_filter_push(all[i as int], long);
        }
        if chain.pr_numbers.len() >= 2 {
            out.push(chain);
            assert(out@.map_values(f) =~= held.push(chain@));
        }
        i += 1;
    }
    assert(all.take(plan.chains.len() as int) =~= all);
    assert(Seq::new(out@.len(), |j: int| out@[j]@) =~= out@.map_values(f));
    out
}

/// The branches and pull requests that an inspection compares with GitHub.
#[derive(Debug)]
pub struct LocalNativeStackInspection {
    pub branches: Vec<String>,
    pub pull_requests: Vec<u64>,
}

/// What GitHub says of the stack that holds a pull request.
#[derive(Debug)]
pub struct GitHubNativeStackInspection {
    pub number: u64,
    pub base_ref: Option<String>,
    pub open: Option<bool>,
    /// The place of the pull request in the stack, counted from one.
    pub position: Option<usize>,
    pub size: usize,
    pub pull_requests: Vec<u64>,
}

/// How a branch stands to GitHub's native stacks.
#[derive(Debug)]
pub struct NativeStackInspection {
    pub provider: &'static str,
    pub preview: bool,
    pub state: String,
    pub local: LocalNativeStackInspection,
    pub github: Option<GitHubNativeStackInspection>,
    pub reason: Option<String>,
    pub error: Option<String>,
}

/// The contents of a `GitHubNativeStackInspection`.
#[verifier::ext_equal]
pub struct RemoteView {
    pub number: u64,
    pub base_ref: Option<Seq<char>>,
    pub open: Option<bool>,
    pub position: Option<usize>,
    pub size: usize,
    pub pull_requests: Seq<u64>,
}

/// The contents of a `NativeStackInspection`.
#[verifier::ext_equal]
pub struct InspectionView {
    pub provider: Seq<char>,
    pub preview: bool,
    pub state: Seq<char>,
    pub local: ChainView,
    pub github: Option<RemoteView>,
    pub reason: Option<Seq<char>>,
    pub error: Option<Seq<char>>,
}

impl View for GitHubNativeStackInspection {
    type V = RemoteView;

    open spec fn view(&self) -> RemoteView {
        RemoteView {
            number: self.number,
            base_ref: opt_view(self.base_ref),
            open: self.open,
            position: self.position,
            size: self.size,
            pull_requests: self.pull_requests@,
        }
    }
}

impl View for NativeStackInspection {
    type V = InspectionView;

    open spec fn view(&self) -> InspectionView {
        InspectionView {
            provider: self.provider@,
            preview: self.preview,
            state: self.state@,
            local: ChainView {
                branches: views(self.local.branches@),
                pr_numbers: self.local.pull_requests@,
            },
            github: match self.github {
                Some(g) => Some(g@),
                None => None,
            },
            reason: opt_view(self.reason),
            error: opt_view(self.error),
        }
    }
}

/// An inspection with the given findings.
pub open spec fn inspection(
    state: Seq<char>,
    local: ChainView,
    github: Option<RemoteView>,
    reason: Option<Seq<char>>,
    error: Option<Seq<char>>,
) -> InspectionView {
    InspectionView { provider: "github"@, preview: true, state, local, github, reason, error }
}

fn base_inspection(
    state: &str,
    branches: Vec<String>,
    pull_requests: Vec<u64>,
    github: Option<GitHubNativeStackInspection>,
    reason: Option<String>,
    error: Option<String>,
) -> (r: NativeStackInspection)
    ensures
        r@ == inspection(
            state@,
            ChainView { branches: views(branches@), pr_numbers: pull_requests@ },
            match github {
                Some(g) => Some(g@),
                None => None,
            },
            opt_view(reason),
            opt_view(error),
        ),
{
    NativeStackInspection {
        provider: "github",
        preview: true,
        state: state.to_owned(),
        local: LocalNativeStackInspection { branches, pull_requests },
        github,
        reason,
        error,
    }
}

/// The place of `n` in a list, counted from one: where it first stands.
pub open spec fn place(s: Seq<u64>, n: u64, at: Option<usize>) -> bool {
    match at {
        Some(p) => 1 <= p <= s.len() && s[p - 1] == n && forall|j: int|
            0 <= j < p - 1 ==> s[j] != n,
        None => !s.contains(n),
    }
}

fn position(s: &Vec<u64>, n: u64) -> (at: Option<usize>)
    ensures
        place(s@, n, at),
{
    let mut i: usize = 0;
    while i < s.len()
        invariant
            i <= s.len(),
            forall|j: int| 0 <= j < i ==> s@[j] != n,
        decreases s.len() - i,
    {
        if s[i] == n {
            return Some(i + 1);
        }
        i += 1;
    }
    None
}

/// What a lookup of a pull request of `chain` shows: in sync exactly when GitHub links the same
/// pull requests in the same order.
pub open spec fn looked_up(
    chain: ChainView,
    pr_number: u64,
    lookup: Result<LookupView, Seq<char>>,
    r: InspectionView,
) -> bool {
    match lookup {
        Ok(LookupView::Found(info)) => exists|at: Option<usize>| #[trigger]
            place(info.pull_requests, pr_number, at) && r == inspection(
                if info.pull_requests == chain.pr_numbers {
                    "in_sync"@
                } else {
                    "diverged"@
                },
                chain,
                Some(
                    RemoteView {
                        number: info.number,
                        base_ref: info.base_ref,
                        open: info.open,
                        position: at,
                        size: info.pull_requests.len() as usize,
                        pull_requests: info.pull_requests,
                    },
                ),
                None,
                None,
            ),
        Ok(LookupView::NotLinked) => r == inspection("not_linked"@, chain, None, None, None),
        Ok(LookupView::Unavailable) => r == inspection("unavailable"@, chain, None, None, None),
        Err(text) => r == inspection("error"@, chain, None, None, Some(text)),
    }
}

/// The contents of the outcome of a lookup.
pub open spec fn lookup_view(l: Result<NativeStackLookup, String>) -> Result<
    LookupView,
    Seq<char>,
> {
    match l {
        Ok(found) => Ok(found@),
        Err(text) => Err(text@),
    }
}

/// What a lookup of a pull request of `chain` shows.
pub fn inspection_from_lookup(
    chain: &NativeStackChain,
    pr_number: u64,
    lookup: &Result<NativeStackLookup, String>,
) -> (r: NativeStackInspection)
    ensures
        looked_up(chain@, pr_number, lookup_view(*lookup), r@),
{
    let branches: Vec<String> = copy_all(&chain.branches);
    let numbers: Vec<u64> = copy_numbers(&chain.pr_numbers);
    match lookup {
        Ok(NativeStackLookup::Found(info)) => {
            let at: Option<usize> = position(&info.pull_requests, pr_number);
            let state: &str = if same_numbers(&info.pull_requests, &chain.pr_numbers) {
                "in_sync"
            } else {
                "diverged"
            };
            assert(place(info@.pull_requests, pr_number, at));
            base_inspection(
                state,
                branches,
                numbers,
                Some(
                    GitHubNativeStackInspection {
                        number: info.number,
                        base_ref: copy_opt(&info.base_ref),
                        open: info.open,
                        position: at,
                        size: info.pull_requests.len(),
                        pull_requests: copy_numbers(&info.pull_requests),
                    },
                ),
                None,
                None,
            )
        },
        Ok(NativeStackLookup::NotLinked) => base_inspection(
            "not_linked",
            branches,
            numbers,
            None,
            None,
            None,
        ),
        Ok(NativeStackLookup::Unavailable) => base_inspection(
            "unavailable",
            branches,
            numbers,
            None,
            None,
            None,
        ),
        Err(text) => base_inspection("error", branches, numbers, None, None, Some(text.clone())),
    }
}

/// The finding for a branch whose component is skipped.
pub open spec fn unrepresentable(c: SkippedView) -> InspectionView {
    inspection(
        "unrepresentable"@,
        ChainView { branches: c.branches, pr_numbers: c.pr_numbers },
        None,
        Some(c.reason),
        None,
    )
}

/// The finding for a branch that no native stack concerns.
pub open spec fn not_applicable(branch: Seq<char>) -> InspectionView {
    inspection(
        "not_applicable"@,
        ChainView { branches: seq![branch], pr_numbers: Seq::empty() },
        None,
        None,
        None,
    )
}

/// Why native stacks do not apply to a fork workflow.
pub open spec fn fork_reason() -> Seq<char> {
    "GitHub native stacks require pull requests in one repository; fork/cross-repository workflows keep the ez stack local"@
}

/// The finding for a branch in a fork workflow.
pub open spec fn fork_not_applicable(local: ChainView) -> InspectionView {
    inspection("not_applicable"@, local, None, Some(fork_reason()), None)
}

fn unrepresentable_inspection(component: &SkippedNativeStackComponent) -> (r:
    NativeStackInspection)
    ensures
        r@ == unrepresentable(component@),
{
    base_inspection(
        "unrepresentable",
        copy_all(&component.branches),
        copy_numbers(&component.pr_numbers),
        None,
        Some(component.reason.to_owned()),
        None,
    )
}

fn one_name(branch: &str) -> (r: Vec<String>)
    ensures
        views(r@) == seq![branch@],
{
    let mut names: Vec<String> = Vec::new();
    names.push(branch.to_owned());
    assert(views(names@) =~= seq![branch@]);
    names
}

fn not_applicable_inspection(branch: &str) -> (r: NativeStackInspection)
    ensures
        r@ == not_applicable(branch@),
{
    let numbers: Vec<u64> = Vec::new();
    assert(numbers@ =~= Seq::<u64>::empty());
    base_inspection("not_applicable", one_name(branch), numbers, None, None, None)
}

fn fork_not_applicable_inspection(branches: Vec<String>, pull_requests: Vec<u64>) -> (r:
    NativeStackInspection)
    ensures
        r@ == fork_not_applicable(
            ChainView { branches: views(branches@), pr_numbers: pull_requests@ },
        ),
{
    let reason: &str =
        "GitHub native stacks require pull requests in one repository; fork/cross-repository workflows keep the ez stack local";
    base_inspection(
        "not_applicable",
        branches,
        pull_requests,
        None,
        Some(reason.to_owned()),
        None,
    )
}

/// Whether entry `i` is the first component of `s` that holds `branch`.
pub open spec fn first_skip(s: Seq<SkippedView>, branch: Seq<char>, i: int) -> bool {
    &&& 0 <= i < s.len()
    &&& s[i].branches.contains(branch)
    &&& forall|j: int| 0 <= j < i ==> !(#[trigger] s[j]).branches.contains(branch)
}

/// Whether entry `i` is the first chain of `s` that holds `branch`.
pub open spec fn first_chain(s: Seq<ChainView>, branch: Seq<char>, i: int) -> bool {
    &&& 0 <= i < s.len()
    &&& s[i].branches.contains(branch)
    &&& forall|j: int| 0 <= j < i ==> !(#[trigger] s[j]).branches.contains(branch)
}

/// Where a plan places a branch.
pub enum Place {
    Skipped(usize),
    Chain(usize),
    Nowhere,
}

/// Whether a plan places `branch` at `at`, components before chains.
pub open spec fn placed(plan: NativeStackPlan, branch: Seq<char>, at: Place) -> bool {
    let skipped = skipped_views(plan.skipped@);
    let chains = chain_views(plan.chains@);
    match at {
        Place::Skipped(i) => first_skip(skipped, branch, i as int),
        Place::Chain(i) => first_chain(chains, branch, i as int) && forall|j: int|
            0 <= j < skipped.len() ==> !(#[trigger] skipped[j]).branches.contains(branch),
        Place::Nowhere => {
            &&& forall|j: int|
                0 <= j < skipped.len() ==> !(#[trigger] skipped[j]).branches.contains(branch)
            &&& forall|j: int|
                0 <= j < chains.len() ==> !(#[trigger] chains[j]).branches.contains(branch)
        },
    }
}

/// Where a plan places a branch, components before chains.
pub fn place_of(plan: &NativeStackPlan, branch: &str) -> (at: Place)
    ensures
        placed(*plan, branch@, at),
{
    let ghost skipped = skipped_views(plan.skipped@);
    let ghost chains = chain_views(plan.chains@);
    let mut i: usize = 0;
    while i < plan.skipped.len()
        invariant
            i <= plan.skipped.len(),
            skipped == skipped_views(plan.skipped@),
            forall|j: int| 0 <= j < i ==> !(#[trigger] skipped[j]).branches.contains(branch@),
        decreases plan.skipped.len() - i,
    {
        assert(skipped[i as int] == plan.skipped@[i as int]@);
        if holds(&plan.skipped[i].branches, branch) {
            return Place::Skipped(i);
        }
        i += 1;
    }
    let mut k: usize = 0;
    while k < plan.chains.len()
        invariant
            k <= plan.chains.len(),
            skipped == skipped_views(plan.skipped@),
            chains == chain_views(plan.chains@),
            forall|j: int|
                0 <= j < skipped.len() ==> !(#[trigger] skipped[j]).branches.contains(branch@),
            forall|j: int| 0 <= j < k ==> !(#[trigger] chains[j]).branches.contains(branch@),
        decreases plan.chains.len() - k,
    {
        assert(chains[k as int] == plan.chains@[k as int]@);
        if holds(&plan.chains[k].branches, branch) {
            return Place::Chain(k);
        }
        k += 1;
    }
    Place::Nowhere
}

/// What an inspection of a branch needs.
pub enum Inspect {
    /// Nothing: this is the finding.
    Settled(NativeStackInspection),
    /// A lookup of the pull request, to hold against the chain.
    Lookup { chain: NativeStackChain, pr_number: u64 },
}

fn copy_chain(chain: &NativeStackChain) -> (r: NativeStackChain)
    ensures
        r@ == chain@,
{
    NativeStackChain {
        branches: copy_all(&chain.branches),
        pr_numbers: copy_numbers(&chain.pr_numbers),
    }
}

/// What is found of a branch before any lookup.
pub open spec fn inspects(s: StackView, branch: Seq<char>, r: Inspect) -> bool {
    if branch == s.trunk || pr_of(s.branches, branch) is None {
        r matches Inspect::Settled(i) && i@ == not_applicable(branch)
    } else {
        exists|plan: NativeStackPlan, at: Place| #[trigger]
            plans(s, plan) && #[trigger] placed(plan, branch, at) && match at {
                Place::Skipped(i) => r matches Inspect::Settled(f) && f@ == unrepresentable(
                    plan.skipped@[i as int]@,
                ),
                Place::Chain(i) => r matches Inspect::Lookup { chain, pr_number } && chain@
                    == plan.chains@[i as int]@ && pr_of(s.branches, branch) == Some(pr_number),
                Place::Nowhere => r matches Inspect::Settled(f) && f@ == not_applicable(branch),
            }
    }
}

/// What is found of a branch before any lookup: only a branch of a chain needs one.
pub fn inspect_branch_with_lookup(state: &StackState, branch: &str) -> (r: Inspect)
    ensures
        inspects(state@, branch@, r),
{
    if state.is_trunk(branch) {
        return Inspect::Settled(not_applicable_inspection(branch));
    }
    let pr_number: u64 = match state.branches.get(branch) {
        Some(meta) => match meta.pr_number {
            Some(n) => n,
            None => {
                return Inspect::Settled(not_applicable_inspection(branch));
            },
        },
        None => {
            return Inspect::Settled(not_applicable_inspection(branch));
        },
    };
    let plan: NativeStackPlan = native_stack_plan(state);
    let at: Place = place_of(&plan, branch);
    let r: Inspect = match at {
        Place::Skipped(i) => Inspect::Settled(unrepresentable_inspection(&plan.skipped[i])),
        Place::Chain(i) => Inspect::Lookup { chain: copy_chain(&plan.chains[i]), pr_number },
        Place::Nowhere => Inspect::Settled(not_applicable_inspection(branch)),
    };
    assert(plans(state@, plan) && placed(plan, branch@, at));
    r
}

/// What is found of a branch in a fork workflow: its component or chain, else the branch alone.
pub open spec fn fork_inspects(s: StackView, branch: Seq<char>, r: InspectionView) -> bool {
    if branch == s.trunk || !s.managed(branch) {
        r == fork_not_applicable(ChainView { branches: seq![branch], pr_numbers: Seq::empty() })
    } else {
        exists|plan: NativeStackPlan| #[trigger] plans(s, plan) && fork_found(s, plan, branch, r)
    }
}

/// What a fork workflow reports of a recorded branch that `plan` places at `at`.
pub open spec fn fork_finding(
    s: StackView,
    plan: NativeStackPlan,
    branch: Seq<char>,
    at: Place,
    r: InspectionView,
) -> bool {
    match at {
        Place::Skipped(i) => r == fork_not_applicable(
            ChainView {
                branches: plan.skipped@[i as int]@.branches,
                pr_numbers: plan.skipped@[i as int]@.pr_numbers,
            },
        ),
        Place::Chain(i) => r == fork_not_applicable(plan.chains@[i as int]@),
        Place::Nowhere => r == fork_not_applicable(
            ChainView {
                branches: seq![branch],
                pr_numbers: prs_of(s.branches, seq![branch]),
            },
        ),
    }
}

fn fork_place_inspection(state: &StackState, plan: &NativeStackPlan, branch: &str, at: &Place) -> (
    r: NativeStackInspection)
    requires
        placed(*plan, branch@, *at),
    ensures
        fork_finding(state@, *plan, branch@, *at, r@),
{
    match at {
        Place::Skipped(i) => fork_not_applicable_inspection(
            copy_all(&plan.skipped[*i].branches),
            copy_numbers(&plan.skipped[*i].pr_numbers),
        ),
        Place::Chain(i) => fork_not_applicable_inspection(
            copy_all(&plan.chains[*i].branches),
            copy_numbers(&plan.chains[*i].pr_numbers),
        ),
        Place::Nowhere => {
            let names: Vec<String> = one_name(branch);
            let numbers: Vec<u64> = pr_numbers_for_branches(state, &names);
            fork_not_applicable_inspection(names, numbers)
        },
    }
}

/// What is found of a branch in a fork workflow.
pub fn fork_not_applicable_branch_inspection(state: &StackState, branch: &str) -> (r:
    NativeStackInspection)
    ensures
        fork_inspects(state@, branch@, r@),
{
    if state.is_trunk(branch) || !state.is_managed(branch) {
        let none: Vec<u64> = Vec::new();
        assert(none@ =~= Seq::<u64>::empty());
        return fork_not_applicable_inspection(one_name(branch), none);
    }
    let plan: NativeStackPlan = native_stack_plan(state);
    let at: Place = place_of(&plan, branch);
    let r: NativeStackInspection = fork_place_inspection(state, &plan, branch, &at);
    assert(plans(state@, plan) && placed(plan, branch@, at));
    r
}

/// What is found of a branch, or the lookup that it needs: none in a fork workflow.
pub fn inspect_branch(state: &StackState, branch: &str) -> (r: Inspect)
    ensures
        if state@.is_fork_workflow() {
            r matches Inspect::Settled(f) && fork_inspects(state@, branch@, f@)
        } else {
            inspects(state@, branch@, r)
        },
{
    if state.is_fork_workflow() {
        return Inspect::Settled(fork_not_applicable_branch_inspection(state, branch));
    }
    inspect_branch_with_lookup(state, branch)
}

/// The topmost pull request of each chain: one lookup of it serves the whole chain.
pub fn chain_lookups(plan: &NativeStackPlan) -> (r: Vec<u64>)
    requires
        forall|i: int| 0 <= i < plan.chains.len() ==> (#[trigger] plan.chains@[i]).pr_numbers.len() > 0,
    ensures
        r.len() == plan.chains.len(),
        forall|i: int| 0 <= i < r.len() ==> #[trigger] r@[i] == plan.chains@[i].pr_numbers@.last(),
{
    let mut out: Vec<u64> = Vec::new();
    let mut i: usize = 0;
    while i < plan.chains.len()
        invariant
            i <= plan.chains.len(),
            out.len() == i,
            forall|j: int|
                0 <= j < plan.chains.len() ==> (#[trigger] plan.chains@[j]).pr_numbers.len() > 0,
            forall|j: int| 0 <= j < i ==> #[trigger] out@[j] == plan.chains@[j].pr_numbers@.last(),
        decreases plan.chains.len() - i,
    {
        assert(plan.chains@[i as int].pr_numbers.len() > 0);
        let n: usize = plan.chains[i].pr_numbers.len();
        out.push(plan.chains[i].pr_numbers[n - 1]);
        i += 1;
    }
    out
}

/// What is found of a recorded branch that `plan` places at `at`, given a lookup per chain.
pub open spec fn finding(
    s: StackView,
    plan: NativeStackPlan,
    lookups: Seq<Result<NativeStackLookup, String>>,
    branch: Seq<char>,
    at: Place,
    r: InspectionView,
) -> bool {
    match at {
        Place::Skipped(i) => r == unrepresentable(plan.skipped@[i as int]@),
        Place::Chain(i) => match pr_of(s.branches, branch) {
            Some(n) => looked_up(plan.chains@[i as int]@, n, lookup_view(lookups[i as int]), r),
            None => r == not_applicable(branch),
        },
        Place::Nowhere => r == not_applicable(branch),
    }
}

/// What is found of a recorded branch wherever `plan` places it, given a lookup per chain.
pub open spec fn found(
    s: StackView,
    plan: NativeStackPlan,
    lookups: Seq<Result<NativeStackLookup, String>>,
    branch: Seq<char>,
    r: InspectionView,
) -> bool {
    exists|at: Place| #[trigger]
        placed(plan, branch, at) && finding(s, plan, lookups, branch, at, r)
}

/// What a fork workflow reports of a recorded branch wherever `plan` places it.
pub open spec fn fork_found(
    s: StackView,
    plan: NativeStackPlan,
    branch: Seq<char>,
    r: InspectionView,
) -> bool {
    exists|at: Place| #[trigger] placed(plan, branch, at) && fork_finding(s, plan, branch, at, r)
}

/// What is found of every recorded branch, by name: one entry each.
pub fn inspect_all_with_lookup(
    state: &StackState,
    plan: &NativeStackPlan,
    lookups: &Vec<Result<NativeStackLookup, String>>,
) -> (r: Vec<(String, NativeStackInspection)>)
    requires
        lookups.len() == plan.chains.len(),
    ensures
        ranks(Seq::new(r@.len(), |i: int| r@[i].0@), state@.branches.dom()),
        forall|i: int|
            0 <= i < r.len() ==> found(
                state@,
                *plan,
                lookups@,
                (#[trigger] r@[i]).0@,
                r@[i].1@,
            ),
{
    let keys: Vec<String> = state.branches.keys();
    let ghost names = views(keys@);
    let mut out: Vec<(String, NativeStackInspection)> = Vec::new();
    let mut i: usize = 0;
    while i < keys.len()
        invariant
            i <= keys.len(),
            out.len() == i,
            lookups.len() == plan.chains.len(),
            forall|j: int| 0 <= j < i ==> (#[trigger] out@[j]).0@ == keys@[j]@,
            forall|j: int|
                0 <= j < i ==> found(
                    state@,
                    *plan,
                    lookups@,
                    (#[trigger] out@[j]).0@,
                    out@[j].1@,
                ),
        decreases keys.len() - i,
    {
        let branch: &String = &keys[i];
        let at: Place = place_of(plan, branch);
        let finding_here: NativeStackInspection = match at {
            Place::Skipped(k) => unrepresentable_inspection(&plan.skipped[k]),
            Place::Chain(k) => {
                let pr: Option<u64> = match state.branches.get(branch) {
                    Some(meta) => meta.pr_number,
                    None => None,
                };
                match pr {
                    Some(n) => inspection_from_lookup(&plan.chains[k], n, &lookups[k]),
                    None => not_applicable_inspection(branch),
                }
            },
            Place::Nowhere => not_applicable_inspection(branch),
        };
        assert(placed(*plan, branch@, at));
        assert(finding(state@, *plan, lookups@, branch@, at, finding_here@));
        out.push((branch.clone(), finding_here));
        i += 1;
    }
    assert(Seq::new(out@.len(), |j: int| out@[j].0@) =~= names);
    out
}

/// What is found of every recorded branch in a fork workflow, by name: one entry each.
pub fn fork_not_applicable_all_inspections(state: &StackState) -> (r: Vec<
    (String, NativeStackInspection),
>)
    ensures
        ranks(Seq::new(r@.len(), |i: int| r@[i].0@), state@.branches.dom()),
        exists|plan: NativeStackPlan|
            #[trigger] plans(state@, plan) && forall|i: int|
                0 <= i < r.len() ==> fork_found(state@, plan, (#[trigger] r@[i]).0@, r@[i].1@),
{
    let plan: NativeStackPlan = native_stack_plan(state);
    let keys: Vec<String> = state.branches.keys();
    let ghost names = views(keys@);
    let mut out: Vec<(String, NativeStackInspection)> = Vec::new();
    let mut i: usize = 0;
    while i < keys.len()
        invariant
            i <= keys.len(),
            out.len() == i,
            forall|j: int| 0 <= j < i ==> (#[trigger] out@[j]).0@ == keys@[j]@,
            forall|j: int|
                0 <= j < i ==> fork_found(state@, plan, (#[trigger] out@[j]).0@, out@[j].1@),
        decreases keys.len() - i,
    {
        let branch: &String = &keys[i];
        let at: Place = place_of(&plan, branch);
        let found: NativeStackInspection = fork_place_inspection(state, &plan, branch, &at);
        assert(placed(plan, branch@, at));
        out.push((branch.clone(), found));
        i += 1;
    }
    assert(Seq::new(out@.len(), |j: int| out@[j].0@) =~= names);
    assert(plans(state@, plan));
    out
}

/// One line that sums an inspection up.
pub open spec fn summary_text(i: InspectionView) -> Seq<char> {
    if i.state == "in_sync"@ {
        "GitHub native stack is in sync"@
    } else if i.state == "diverged"@ {
        "GitHub native stack diverges from local stack"@
    } else if i.state == "not_linked"@ {
        "GitHub native stack is not linked"@
    } else if i.state == "unavailable"@ {
        "GitHub native stack preview is unavailable"@
    } else if i.state == "unrepresentable"@ {
        "Local stack cannot be represented as a GitHub native stack ("@ + (match i.reason {
            Some(r) => r,
            None => "unknown"@,
        }) + ")"@
    } else if i.state == "not_applicable"@ {
        "GitHub native stack does not apply to this branch"@
    } else if i.state == "error"@ {
        "GitHub native stack inspection failed: "@ + (match i.error {
            Some(e) => e,
            None => "unknown error"@,
        })
    } else {
        "GitHub native stack state: "@ + i.state
    }
}

/// One line that sums an inspection up.
pub fn summary(inspection: &NativeStackInspection) -> (r: String)
    ensures
        r@ == summary_text(inspection@),
{
    let state: &str = &inspection.state;
    if same(state, "in_sync") {
        String::from_str("GitHub native stack is in sync")
    } else if same(state, "diverged") {
        String::from_str("GitHub native stack diverges from local stack")
    } else if same(state, "not_linked") {
        String::from_str("GitHub native stack is not linked")
    } else if same(state, "unavailable") {
        String::from_str("GitHub native stack preview is unavailable")
    } else if same(state, "unrepresentable") {
        let reason: &str = match &inspection.reason {
            Some(r) => r,
            None => "unknown",
        };
        String::from_str("Local stack cannot be represented as a GitHub native stack (").concat(
            reason,
        ).concat(")")
    } else if same(state, "not_applicable") {
        String::from_str("GitHub native stack does not apply to this branch")
    } else if same(state, "error") {
        let error: &str = match &inspection.error {
            Some(e) => e,
            None => "unknown error",
        };
        String::from_str("GitHub native stack inspection failed: ").concat(error)
    } else {
        String::from_str("GitHub native stack state: ").concat(state)
    }
}

/// The line that tells the user what came of linking a chain, if there is anything to tell.
pub open spec fn outcome_text(o: NativeStackOutcome) -> Option<Seq<char>> {
    match o {
        NativeStackOutcome::NotNeeded => None,
        NativeStackOutcome::Created { number } => Some(
            "Linked PRs into GitHub native stack #"@ + decimal(number as nat),
        ),
        NativeStackOutcome::Extended { number, added } => Some(
            "Extended GitHub native stack #"@ + decimal(number as nat) + " with "@ + decimal(
                added as nat,
            ) + " PR(s)"@,
        ),
        NativeStackOutcome::Unchanged { number } => Some(
            "GitHub native stack #"@ + decimal(number as nat) + " is up to date"@,
        ),
        NativeStackOutcome::Repaired { previous_number, number } => Some(
            "Repaired GitHub native stack #"@ + decimal(previous_number as nat) + " as #"@
                + decimal(number as nat),
        ),
        NativeStackOutcome::Unavailable => Some(
            "GitHub native stacks unavailable; ordinary PR chain succeeded"@,
        ),
        NativeStackOutcome::NotApplicable { reason } => Some(
            "GitHub native stacks not applicable: "@ + reason@,
        ),
    }
}

/// The line that tells the user what came of linking a chain, if there is anything to tell.
pub fn report_outcome(outcome: &NativeStackOutcome) -> (r: Option<String>)
    ensures
        opt_view(r) == outcome_text(*outcome),
{
    match outcome {
        NativeStackOutcome::NotNeeded => None,
        NativeStackOutcome::Created { number: n } => Some(
            String::from_str("Linked PRs into GitHub native stack #").concat(&number(*n)),
        ),
        NativeStackOutcome::Extended { number: n, added } => Some(
            String::from_str("Extended GitHub native stack #").concat(&number(*n)).concat(
                " with ",
            ).concat(&count(*added)).concat(" PR(s)"),
        ),
        NativeStackOutcome::Unchanged { number: n } => Some(
            String::from_str("GitHub native stack #").concat(&number(*n)).concat(
                " is up to date",
            ),
        ),
        NativeStackOutcome::Repaired { previous_number, number: n } => Some(
            String::from_str("Repaired GitHub native stack #").concat(
                &number(*previous_number),
            ).concat(" as #").concat(&number(*n)),
        ),
        NativeStackOutcome::Unavailable => Some(
            String::from_str("GitHub native stacks unavailable; ordinary PR chain succeeded"),
        ),
        NativeStackOutcome::NotApplicable { reason } => Some(
            String::from_str("GitHub native stacks not applicable: ").concat(reason),
        ),
    }
}

/// The part of a receipt that tells what came of linking a chain.
pub open spec fn outcome_fields(command: Seq<char>, o: NativeStackOutcome) -> Map<
    Seq<char>,
    JsonView,
> {
    let base = no_fields().insert("cmd"@, JsonView::Text(command));
    match o {
        NativeStackOutcome::NotNeeded => base.insert(
            "native_stack_action"@,
            JsonView::Text("not_needed"@),
        ),
        NativeStackOutcome::Created { number } => base.insert(
            "native_stack_action"@,
            JsonView::Text("created"@),
        ).insert("native_stack_number"@, JsonView::Number(number)),
        NativeStackOutcome::Extended { number, added } => base.insert(
            "native_stack_action"@,
            JsonView::Text("extended"@),
        ).insert("native_stack_number"@, JsonView::Number(number)).insert(
            "native_stack_added"@,
            JsonView::Number(added as u64),
        ),
        NativeStackOutcome::Unchanged { number } => base.insert(
            "native_stack_action"@,
            JsonView::Text("unchanged"@),
        ).insert("native_stack_number"@, JsonView::Number(number)),
        NativeStackOutcome::Repaired { previous_number, number } => base.insert(
            "native_stack_action"@,
            JsonView::Text("repaired"@),
        ).insert("native_stack_previous_number"@, JsonView::Number(previous_number)).insert(
            "native_stack_number"@,
            JsonView::Number(number),
        ),
        NativeStackOutcome::Unavailable => base.insert(
            "native_stack_action"@,
            JsonView::Text("unavailable"@),
        ),
        NativeStackOutcome::NotApplicable { reason } => base.insert(
            "native_stack_action"@,
            JsonView::Text("not_applicable"@),
        ).insert("native_stack_reason"@, JsonView::Text(reason@)),
    }
}

/// The receipt for what came of linking a chain; branches and pull requests are listed where
/// there are any.
pub open spec fn outcome_receipt(
    command: Seq<char>,
    branches: Seq<Seq<char>>,
    pr_numbers: Seq<u64>,
    o: NativeStackOutcome,
) -> JsonView {
    let base = outcome_fields(command, o);
    let named = if branches.len() == 0 {
        base
    } else {
        base.insert("branches"@, text_list(branches))
    };
    JsonView::Object(
        if pr_numbers.len() == 0 {
            named
        } else {
            named.insert("pull_requests"@, number_list(pr_numbers))
        },
    )
}

/// The receipt for what came of linking a chain.
pub fn receipt_value(
    command: &str,
    branches: &Vec<String>,
    pr_numbers: &Vec<u64>,
    outcome: &NativeStackOutcome,
) -> (r: Json)
    ensures
        r@ == outcome_receipt(command@, views(branches@), pr_numbers@, *outcome),
{
    let base: JsonObject = JsonObject::new().field("cmd", Json::text(command));
    let action: &str = "native_stack_action";
    let fields: JsonObject = match outcome {
        NativeStackOutcome::NotNeeded => base.field(action, Json::text("not_needed")),
        NativeStackOutcome::Created { number: n } => base.field(
            action,
            Json::text("created"),
        ).field("native_stack_number", Json::Number(*n)),
        NativeStackOutcome::Extended { number: n, added } => base.field(
            action,
            Json::text("extended"),
        ).field("native_stack_number", Json::Number(*n)).field(
            "native_stack_added",
            Json::count(*added),
        ),
        NativeStackOutcome::Unchanged { number: n } => base.field(
            action,
            Json::text("unchanged"),
        ).field("native_stack_number", Json::Number(*n)),
        NativeStackOutcome::Repaired { previous_number, number: n } => base.field(
            action,
            Json::text("repaired"),
        ).field("native_stack_previous_number", Json::Number(*previous_number)).field(
            "native_stack_number",
            Json::Number(*n),
        ),
        NativeStackOutcome::Unavailable => base.field(action, Json::text("unavailable")),
        NativeStackOutcome::NotApplicable { reason } => base.field(
            action,
            Json::text("not_applicable"),
        ).field("native_stack_reason", Json::text(reason)),
    };
    assert(fields@ == outcome_fields(command@, *outcome));
    assert(views(branches@).len() == branches.len());
    let named: JsonObject = if branches.len() == 0 {
        fields
    } else {
        fields.field("branches", Json::texts(branches))
    };
    let all: JsonObject = if pr_numbers.len() == 0 {
        named
    } else {
        named.field("pull_requests", Json::numbers(pr_numbers))
    };
    all.done()
}

/// The receipt for a chain that could not be linked.
pub fn error_receipt_value(
    command: &str,
    branches: &Vec<String>,
    pr_numbers: &Vec<u64>,
    error: &str,
) -> (r: Json)
    ensures
        r@ == JsonView::Object(
            no_fields().insert("cmd"@, JsonView::Text(command@)).insert(
                "branches"@,
                text_list(views(branches@)),
            ).insert("pull_requests"@, number_list(pr_numbers@)).insert(
                "native_stack_action"@,
                JsonView::Text("error"@),
            ).insert("native_stack_error"@, JsonView::Text(error@)),
        ),
{
    JsonObject::new().field("cmd", Json::text(command)).field(
        "branches",
        Json::texts(branches),
    ).field("pull_requests", Json::numbers(pr_numbers)).field(
        "native_stack_action",
        Json::text("error"),
    ).field("native_stack_error", Json::text(error)).done()
}

/// Whether `run` is a piece of `line` in which every branch has a pull request.
spec fn piece(m: Forest, line: Seq<Seq<char>>, run: Seq<Seq<char>>) -> bool {
    exists|o: int| #[trigger] piece_at(m, line, run, o)
}

spec fn piece_at(m: Forest, line: Seq<Seq<char>>, run: Seq<Seq<char>>, o: int) -> bool {
    &&& run.len() > 0
    &&& 0 <= o <= line.len() - run.len()
    &&& run == line.subrange(o, o + run.len())
    &&& forall|k: int| 0 <= k < run.len() ==> pr_of(m, #[trigger] run[k]) is Some
}

/// What cutting a line gives: pieces of it, one after another, that hold every branch with a
/// pull request.
proof fn lemma_cut(m: Forest, line: Seq<Seq<char>>)
    ensures
        ({
            let (done, open) = cut(m, line);
            &&& open.len() <= line.len()
            &&& open == line.skip(line.len() - open.len())
            &&& forall|k: int| 0 <= k < open.len() ==> pr_of(m, #[trigger] open[k]) is Some
            &&& forall|i: int|
                0 <= i < done.len() ==> piece(
                    m,
                    line.take(line.len() - open.len()),
                    #[trigger] done[i],
                )
            &&& forall|k: int|
                0 <= k < line.len() - open.len() && pr_of(m, line[k]) is Some ==> exists|i: int|
                    0 <= i < done.len() && (#[trigger] done[i]).contains(#[trigger] line[k])
            &&& forall|i: int, j: int, b: Seq<char>|
                line.no_duplicates() && 0 <= i < j < done.len() && #[trigger] done[i].contains(b)
                    ==> !#[trigger] done[j].contains(b)
        }),
    decreases line.len(),
{
    if line.len() > 0 {
        let short = line.drop_last();
        let b = line.last();
        lemma_cut(m, short);
        let (done0, open0) = cut(m, short);
        let (done, open) = cut(m, line);
        let base0 = short.take(short.len() - open0.len());
        if pr_of(m, b) is Some {
            assert(open =~= line.skip(line.len() - open.len()));
            assert(line.take(line.len() - open.len()) =~= base0);
            assert forall|k: int| 0 <= k < open.len() implies pr_of(
                m,
                #[trigger] open[k],
            ) is Some by {
                if k < open0.len() {
                    assert(open[k] == open0[k]);
                }
            }
            assert forall|k: int|
                0 <= k < line.len() - open.len() && pr_of(m, line[k]) is Some implies exists|i: int|
                    0 <= i < done.len() && (#[trigger] done[i]).contains(#[trigger] line[k]) by {
                assert(short[k] == line[k]);
                assert(exists|i: int|
                    0 <= i < done0.len() && (#[trigger] done0[i]).contains(short[k]));
            }
        } else {
            assert(open =~= line.skip(line.len() - open.len()));
            let base = line.take(line.len() - open.len());
            assert(base =~= line);
            assert forall|i: int| 0 <= i < done.len() implies piece(m, base, #[trigger] done[i]) by {
                if i < done0.len() {
                    assert(done[i] == done0[i]);
                    let o = choose|o: int| #[trigger] piece_at(m, base0, done0[i], o);
                    assert(base0.subrange(o, o + done0[i].len()) =~= base.subrange(
                        o,
                        o + done0[i].len(),
                    ));
                    assert(piece_at(m, base, done[i], o));
                } else {
                    let o = short.len() - open0.len();
                    assert(open0 =~= base.subrange(o, o + open0.len()));
                    assert(piece_at(m, base, done[i], o));
                }
            }
            assert forall|k: int|
                0 <= k < line.len() - open.len() && pr_of(m, line[k]) is Some implies exists|i: int|
                    0 <= i < done.len() && (#[trigger] done[i]).contains(#[trigger] line[k]) by {
                assert(k < short.len());
                assert(short[k] == line[k]);
                if k < short.len() - open0.len() {
                    let i = choose|i: int|
                        0 <= i < done0.len() && (#[trigger] done0[i]).contains(short[k]);
                    assert(done[i] == done0[i]);
                } else {
                    assert(open0[k - (short.len() - open0.len())] == line[k]);
                    assert(open0.contains(line[k]));
                    assert(done[done0.len() as int] == open0);
                }
            }
            assert forall|i: int, j: int, c: Seq<char>|
                line.no_duplicates() && 0 <= i < j < done.len() && #[trigger] done[i].contains(
                    c,
                ) implies !#[trigger] done[j].contains(c) by {
                assert(short.no_duplicates());
                assert(done[i] == done0[i]);
                if j < done0.len() {
                    assert(done[j] == done0[j]);
                } else if done[j].contains(c) {
                    let o = choose|o: int| #[trigger] piece_at(m, base0, done0[i], o);
                    let z = choose|z: int| 0 <= z < done0[i].len() && done0[i][z] == c;
                    assert(line[o + z] == c);
                    let y = choose|y: int| 0 <= y < open0.len() && open0[y] == c;
                    assert(line[short.len() - open0.len() + y] == c);
                }
            }
        }
    }
}

/// What the runs of a line are: pieces of it that hold every branch with a pull request, none
/// of them in two.
proof fn lemma_runs(m: Forest, line: Seq<Seq<char>>)
    ensures
        forall|i: int| 0 <= i < runs(m, line).len() ==> piece(m, line, #[trigger] runs(m, line)[i]),
        forall|k: int|
            0 <= k < line.len() && pr_of(m, #[trigger] line[k]) is Some ==> exists|i: int|
                0 <= i < runs(m, line).len() && (#[trigger] runs(m, line)[i]).contains(line[k]),
        forall|i: int, j: int, b: Seq<char>|
            line.no_duplicates() && 0 <= i < j < runs(m, line).len() && #[trigger] runs(
                m,
                line,
            )[i].contains(b) ==> !#[trigger] runs(m, line)[j].contains(b),
{
    lemma_cut(m, line);
    let (done, open) = cut(m, line);
    let r = runs(m, line);
    let base = line.take(line.len() - open.len());
    assert forall|i: int| 0 <= i < r.len() implies piece(m, line, #[trigger] r[i]) by {
        if i < done.len() {
            assert(r[i] == done[i]);
            let o = choose|o: int| #[trigger] piece_at(m, base, done[i], o);
            assert(base.subrange(o, o + done[i].len()) =~= line.subrange(o, o + done[i].len()));
            assert(piece_at(m, line, r[i], o));
        } else {
            let o = line.len() - open.len();
            assert(open =~= line.subrange(o, o + open.len()));
            assert(piece_at(m, line, r[i], o));
        }
    }
    assert forall|k: int|
        0 <= k < line.len() && pr_of(m, #[trigger] line[k]) is Some implies exists|i: int|
            0 <= i < r.len() && (#[trigger] r[i]).contains(line[k]) by {
        if k < line.len() - open.len() {
            let i = choose|i: int| 0 <= i < done.len() && (#[trigger] done[i]).contains(line[k]);
            assert(r[i] == done[i]);
        } else {
            assert(open[k - (line.len() - open.len())] == line[k]);
            assert(r[done.len() as int] == open);
            assert(r[done.len() as int].contains(line[k]));
        }
    }
    assert forall|i: int, j: int, b: Seq<char>|
        line.no_duplicates() && 0 <= i < j < r.len() && #[trigger] r[i].contains(
            b,
        ) implies !#[trigger] r[j].contains(b) by {
        assert(r[i] == done[i]);
        if j < done.len() {
            assert(r[j] == done[j]);
        } else if r[j].contains(b) {
            let o = choose|o: int| #[trigger] piece_at(m, base, done[i], o);
            let z = choose|z: int| 0 <= z < done[i].len() && done[i][z] == b;
            assert(line[o + z] == b);
            let y = choose|y: int| 0 <= y < open.len() && open[y] == b;
            assert(line[line.len() - open.len() + y] == b);
        }
    }
}

/// In a tree without forks every branch stands right on the one before it.
proof fn lemma_unforked_line(m: Forest, root: Seq<char>)
    requires
        breadth_first(m, root, topo(m, root)),
        !any_forked(m, tree(m, root)),
    ensures
        forall|k: int|
            0 < k < tree(m, root).len() ==> m.contains_key(tree(m, root)[k]) && m[#[trigger] tree(
                m,
                root,
            )[k]].parent == tree(m, root)[k - 1],
        tree(m, root).no_duplicates(),
{
    let s = topo(m, root);
    let t = tree(m, root);
    let pos = choose|pos: Seq<int>| laid_out(m, root, s, pos);
    assert forall|k: int| 0 <= k < s.len() implies m.contains_key(#[trigger] s[k]) && s[k] != root by {
        assert(s.contains(s[k]));
        let n = choose|n: nat| below(m, root, s[k], n);
        assert(below(m, root, s[k], n));
    }
    assert forall|k: int| 0 <= k < s.len() implies #[trigger] pos[k] == k - 1 by {
        lemma_unforked_place(m, root, pos, k);
    }
    assert forall|k: int| 0 < k < t.len() implies m.contains_key(t[k]) && m[#[trigger] t[k]].parent
        == t[k - 1] by {
        assert(t[k] == s[k - 1]);
        assert(pos[k - 1] == k - 2);
        if k > 1 {
            assert(t[k - 1] == s[k - 2]);
        }
    }
    assert forall|i: int, j: int| 0 <= i < t.len() && 0 <= j < t.len() && i != j implies t[i]
        != t[j] by {
        if i > 0 {
            assert(t[i] == s[i - 1]);
        }
        if j > 0 {
            assert(t[j] == s[j - 1]);
        }
    }
}

proof fn lemma_unforked_place(m: Forest, root: Seq<char>, pos: Seq<int>, k: int)
    requires
        breadth_first(m, root, topo(m, root)),
        laid_out(m, root, topo(m, root), pos),
        !any_forked(m, tree(m, root)),
        0 <= k < topo(m, root).len(),
    ensures
        pos[k] == k - 1,
    decreases k,
{
    let s = topo(m, root);
    if k > 0 {
        lemma_unforked_place(m, root, pos, k - 1);
        assert(pos[k - 1] == k - 2);
        if pos[k] == pos[k - 1] {
            let q = pos[k];
            let p = if q < 0 { root } else { s[q] };
            assert(s.contains(s[k]) && s.contains(s[k - 1]));
            let b = s[k];
            let c = s[k - 1];
            let n = choose|n: nat| below(m, root, b, n);
            let n1 = choose|n: nat| below(m, root, c, n);
            assert(below(m, root, b, n) && below(m, root, c, n1));
            assert(is_child(m, p, s[k]) && is_child(m, p, s[k - 1]));
            assert(s[k] != s[k - 1]);
            assert(forked(m, p));
            assert(tree(m, root)[q + 1] == p);
            assert(forked(m, tree(m, root)[q + 1]));
        }
        assert(pos[k - 1] <= pos[k]);
    }
}

/// The pull requests of branches that all have one, in their order.
proof fn lemma_prs(m: Forest, names: Seq<Seq<char>>)
    requires
        forall|k: int| 0 <= k < names.len() ==> pr_of(m, #[trigger] names[k]) is Some,
    ensures
        prs_of(m, names).len() == names.len(),
        forall|k: int|
            0 <= k < names.len() ==> pr_of(m, names[k]) == Some(#[trigger] prs_of(m, names)[k]),
    decreases names.len(),
{
    if names.len() > 0 {
        let short = names.drop_last();
        assert forall|k: int| 0 <= k < short.len() implies pr_of(m, #[trigger] short[k]) is Some by {
            assert(short[k] == names[k]);
        }
        lemma_prs(m, short);
        assert(names[names.len() - 1] == names.last());
    }
}

/// Whether chain `c` is the run `j` of the tree on root `k`, which does not fork.
spec fn from_root(m: Forest, roots: Seq<Seq<char>>, c: ChainView, k: int, j: int) -> bool {
    &&& 0 <= k < roots.len()
    &&& !any_forked(m, tree(m, roots[k]))
    &&& 0 <= j < runs(m, tree(m, roots[k])).len()
    &&& c == chain_of(m, runs(m, tree(m, roots[k]))[j])
}

/// Whether chain `c` comes from a root.
spec fn has_root(m: Forest, roots: Seq<Seq<char>>, c: ChainView) -> bool {
    exists|k: int, j: int| #[trigger] from_root(m, roots, c, k, j)
}

/// Every chain comes from a root, and every run of a root without forks is a chain.
proof fn lemma_rooted_chains(m: Forest, roots: Seq<Seq<char>>)
    ensures
        forall|i: int|
            0 <= i < rooted_chains(m, roots).len() ==> has_root(
                m,
                roots,
                #[trigger] rooted_chains(m, roots)[i],
            ),
        forall|c: ChainView, k: int, j: int| #[trigger]
            from_root(m, roots, c, k, j) ==> rooted_chains(m, roots).contains(c),
    decreases roots.len(),
{
    if roots.len() > 0 {
        let short = roots.drop_last();
        lemma_rooted_chains(m, short);
        let before = rooted_chains(m, short);
        let all = rooted_chains(m, roots);
        let line = tree(m, roots.last());
        assert forall|i: int| 0 <= i < all.len() implies has_root(m, roots, #[trigger] all[i]) by {
            if i < before.len() {
                assert(all[i] == before[i]);
                assert(has_root(m, short, before[i]));
                let (k, j) = choose|k: int, j: int| #[trigger] from_root(m, short, before[i], k, j);
                assert(short[k] == roots[k]);
                assert(from_root(m, roots, all[i], k, j));
            } else {
                assert(from_root(m, roots, all[i], roots.len() - 1, i - before.len()));
            }
        }
        assert forall|c: ChainView, k: int, j: int| #[trigger]
            from_root(m, roots, c, k, j) implies all.contains(c) by {
            if k < short.len() {
                assert(short[k] == roots[k]);
                assert(from_root(m, short, c, k, j));
                let i = choose|i: int| 0 <= i < before.len() && before[i] == c;
                assert(all[i] == c);
            } else {
                assert(all[before.len() + j] == c);
            }
        }
    }
}

/// Every branch of a linkable chain has the pull request listed for it, and is stacked right on
/// the branch before it.
pub proof fn law_chains_follow_parents(s: StackView, plan: NativeStackPlan, i: int)
    requires
        plans(s, plan),
        0 <= i < plan.chains.len(),
    ensures
        ({
            let c = plan.chains@[i]@;
            &&& c.branches.len() == c.pr_numbers.len()
            &&& c.branches.len() > 0
            &&& forall|k: int|
                0 <= k < c.branches.len() ==> pr_of(s.branches, #[trigger] c.branches[k]) == Some(
                    c.pr_numbers[k],
                )
            &&& forall|k: int|
                0 < k < c.branches.len() ==> s.branches[#[trigger] c.branches[k]].parent
                    == c.branches[k - 1]
        }),
{
    let m = s.branches;
    let roots = ranked(children(m, s.trunk));
    lemma_rooted_chains(m, roots);
    let c = chain_views(plan.chains@)[i];
    assert(c == plan.chains@[i]@);
    assert(c == rooted_chains(m, roots)[i]);
    let (k, j) = choose|k: int, j: int| #[trigger] from_root(m, roots, c, k, j);
    assert(roots.contains(roots[k]));
    lemma_run_follows_parents(m, roots[k], j);
}

proof fn lemma_run_follows_parents(m: Forest, root: Seq<char>, j: int)
    requires
        breadth_first(m, root, topo(m, root)),
        !any_forked(m, tree(m, root)),
        0 <= j < runs(m, tree(m, root)).len(),
    ensures
        ({
            let c = chain_of(m, runs(m, tree(m, root))[j]);
            &&& c.branches.len() == c.pr_numbers.len()
            &&& c.branches.len() > 0
            &&& forall|k: int|
                0 <= k < c.branches.len() ==> pr_of(m, #[trigger] c.branches[k]) == Some(
                    c.pr_numbers[k],
                )
            &&& forall|k: int|
                0 < k < c.branches.len() ==> m[#[trigger] c.branches[k]].parent == c.branches[k
                    - 1]
        }),
{
    let line = tree(m, root);
    let run = runs(m, line)[j];
    lemma_runs(m, line);
    assert(piece(m, line, run));
    let o = choose|o: int| #[trigger] piece_at(m, line, run, o);
    lemma_prs(m, run);
    lemma_unforked_line(m, root);
    assert forall|z: int| 0 < z < run.len() implies m[#[trigger] run[z]].parent == run[z - 1] by {
        assert(run[z] == line[o + z]);
        assert(run[z - 1] == line[o + z - 1]);
    }
}

/// Every recorded branch with a pull request is in a chain or in a skipped component.
pub proof fn law_every_pull_request_is_planned(s: StackView, plan: NativeStackPlan, b: Seq<char>)
    requires
        plans(s, plan),
        pr_of(s.branches, b) is Some,
    ensures
        (exists|i: int| 0 <= i < plan.chains.len() && (#[trigger] plan.chains@[i])@.branches.contains(b))
            || (exists|i: int|
            0 <= i < plan.skipped.len() && (#[trigger] plan.skipped@[i])@.branches.contains(b)),
{
    let m = s.branches;
    let roots = ranked(children(m, s.trunk));
    let forks = rooted_skips(m, roots);
    let skipped = skipped_views(plan.skipped@);
    if rooted(m, s.trunk, b) {
        let r = choose|r: Seq<char>| #[trigger] is_child(m, s.trunk, r) && tree(m, r).contains(b);
        assert(children(m, s.trunk).contains(r));
        assert(roots.contains(r));
        let k = choose|k: int| 0 <= k < roots.len() && roots[k] == r;
        let line = tree(m, r);
        if any_forked(m, line) {
            lemma_forks_listed(m, roots, k);
            let i = choose|i: int| 0 <= i < forks.len() && (#[trigger] forks[i]).root == r;
            assert(skipped[i] == skipped.take(forks.len() as int)[i]);
            assert(skipped[i].branches.contains(b));
            assert(plan.skipped@[i]@.branches.contains(b));
        } else {
            lemma_runs(m, line);
            lemma_rooted_chains(m, roots);
            let z = choose|z: int| 0 <= z < line.len() && line[z] == b;
            assert(pr_of(m, line[z]) is Some);
            let j = choose|j: int|
                0 <= j < runs(m, line).len() && (#[trigger] runs(m, line)[j]).contains(line[z]);
            let all = rooted_chains(m, roots);
            let c = chain_of(m, runs(m, line)[j]);
            assert(from_root(m, roots, c, k, j));
            let i = choose|i: int| 0 <= i < all.len() && all[i] == c;
            assert(chain_views(plan.chains@)[i] == all[i]);
            assert(plan.chains@[i]@.branches.contains(b));
        }
    } else {
        let area = astray(m, s.trunk);
        let rest = skipped.skip(forks.len() as int);
        assert(area.contains(b));
        let i = choose|i: int|
            0 <= i < rest.len() && component(m, area, (#[trigger] rest[i]).root).contains(b);
        let g = forks.len() + i;
        assert(skipped[g] == rest[i]);
        assert(skipped[g].branches.contains(b));
        assert(plan.skipped@[g]@.branches.contains(b));
    }
}

/// A forked tree on a root is listed.
proof fn lemma_forks_listed(m: Forest, roots: Seq<Seq<char>>, k: int)
    requires
        0 <= k < roots.len(),
        any_forked(m, tree(m, roots[k])),
    ensures
        exists|i: int|
            0 <= i < rooted_skips(m, roots).len() && (#[trigger] rooted_skips(m, roots)[i]).root
                == roots[k],
    decreases roots.len(),
{
    let short = roots.drop_last();
    let before = rooted_skips(m, short);
    let all = rooted_skips(m, roots);
    if k == roots.len() - 1 {
        assert(all[before.len() as int].root == roots[k]);
    } else {
        assert(short[k] == roots[k]);
        lemma_forks_listed(m, short, k);
        let i = choose|i: int| 0 <= i < before.len() && (#[trigger] before[i]).root == short[k];
        assert(all[i] == before[i]);
    }
}

/// A tree holds its root and the root's descendants.
proof fn lemma_tree_holds(m: Forest, r: Seq<char>, b: Seq<char>)
    requires
        breadth_first(m, r, topo(m, r)),
    ensures
        tree(m, r).contains(b) <==> b == r || descends(m, r, b),
{
    let s = topo(m, r);
    let t = tree(m, r);
    assert(s.contains(b) <==> descends(m, r, b));
    if t.contains(b) {
        let z = choose|z: int| 0 <= z < t.len() && t[z] == b;
        if z > 0 {
            assert(s[z - 1] == b);
        }
    }
    if s.contains(b) {
        let z = choose|z: int| 0 <= z < s.len() && s[z] == b;
        assert(t[z + 1] == b);
    }
    assert(t[0] == r);
}

/// A branch stacked on two roots puts one root above the other.
proof fn lemma_two_roots(m: Forest, r: Seq<char>, q: Seq<char>, b: Seq<char>, n: nat, k: nat)
    requires
        r != q,
        below(m, r, b, n),
        below(m, q, b, k),
    ensures
        descends(m, r, q) || descends(m, q, r),
    decreases n,
{
    let p = m[b].parent;
    if p == r {
        assert(below(m, q, r, (k - 1) as nat));
    } else if p == q {
        assert(below(m, r, q, (n - 1) as nat));
    } else {
        lemma_two_roots(m, r, q, p, (n - 1) as nat, (k - 1) as nat);
    }
}

/// The trees on two roots share nothing unless the trunk stands above itself.
proof fn lemma_trees_apart(
    m: Forest,
    trunk: Seq<char>,
    r: Seq<char>,
    q: Seq<char>,
    b: Seq<char>,
)
    requires
        is_child(m, trunk, r),
        is_child(m, trunk, q),
        r != q,
        breadth_first(m, r, topo(m, r)),
        breadth_first(m, q, topo(m, q)),
        !rooted(m, trunk, trunk),
        tree(m, r).contains(b),
    ensures
        !tree(m, q).contains(b),
{
    if tree(m, q).contains(b) {
        lemma_tree_holds(m, r, b);
        lemma_tree_holds(m, q, b);
        if b != r && b != q {
            let n = choose|n: nat| below(m, r, b, n);
            let k = choose|n: nat| below(m, q, b, n);
            lemma_two_roots(m, r, q, b, n, k);
        }
        let (low, high) = if descends(m, r, q) { (r, q) } else { (q, r) };
        let n = choose|n: nat| below(m, low, high, n);
        assert(m[high].parent == trunk);
        if low != trunk {
            assert(below(m, low, trunk, (n - 1) as nat));
        }
        lemma_tree_holds(m, low, trunk);
        assert(rooted(m, trunk, trunk));
    }
}

/// A run of a tree is part of the tree.
proof fn lemma_run_in_tree(m: Forest, root: Seq<char>, j: int, b: Seq<char>)
    requires
        0 <= j < runs(m, tree(m, root)).len(),
        runs(m, tree(m, root))[j].contains(b),
    ensures
        tree(m, root).contains(b),
{
    let line = tree(m, root);
    let run = runs(m, line)[j];
    lemma_runs(m, line);
    assert(piece(m, line, run));
    let o = choose|o: int| #[trigger] piece_at(m, line, run, o);
    let z = choose|z: int| 0 <= z < run.len() && run[z] == b;
    assert(line[o + z] == b);
}

/// What the trees on a list of roots need to share nothing.
spec fn apart(m: Forest, trunk: Seq<char>, roots: Seq<Seq<char>>) -> bool {
    &&& sorted(roots)
    &&& !rooted(m, trunk, trunk)
    &&& forall|k: int|
        0 <= k < roots.len() ==> is_child(m, trunk, #[trigger] roots[k]) && breadth_first(
            m,
            roots[k],
            topo(m, roots[k]),
        )
}

proof fn lemma_chains_apart(
    m: Forest,
    trunk: Seq<char>,
    roots: Seq<Seq<char>>,
    i: int,
    j: int,
    b: Seq<char>,
)
    requires
        apart(m, trunk, roots),
        0 <= i < j < rooted_chains(m, roots).len(),
        rooted_chains(m, roots)[i].branches.contains(b),
    ensures
        !rooted_chains(m, roots)[j].branches.contains(b),
    decreases roots.len(),
{
    let short = roots.drop_last();
    let before = rooted_chains(m, short);
    let all = rooted_chains(m, roots);
    let root = roots[roots.len() - 1];
    let line = tree(m, root);
    assert(apart(m, trunk, short)) by {
        assert forall|k: int| 0 <= k < short.len() implies is_child(m, trunk, #[trigger] short[k])
            && breadth_first(m, short[k], topo(m, short[k])) by {
            assert(short[k] == roots[k]);
        }
        assert forall|x: int, y: int| 0 <= x < y < short.len() implies lex_less(
            #[trigger] short[x],
            #[trigger] short[y],
        ) by {
            assert(lex_less(roots[x], roots[y]));
        }
    }
    if j < before.len() {
        assert(all[i] == before[i] && all[j] == before[j]);
        lemma_chains_apart(m, trunk, short, i, j, b);
    } else if all[j].branches.contains(b) {
        let y = j - before.len();
        assert(all[j] == chain_of(m, runs(m, line)[y]));
        lemma_run_in_tree(m, root, y, b);
        if i < before.len() {
            assert(all[i] == before[i]);
            lemma_rooted_chains(m, short);
            assert(has_root(m, short, before[i]));
            let (k, x) = choose|k: int, x: int| #[trigger] from_root(m, short, before[i], k, x);
            assert(short[k] == roots[k]);
            lemma_run_in_tree(m, roots[k], x, b);
            lemma_sorted_distinct(roots);
            lemma_trees_apart(m, trunk, roots[k], root, b);
        } else {
            let x = i - before.len();
            assert(all[i] == chain_of(m, runs(m, line)[x]));
            lemma_unforked_line(m, root);
            lemma_runs(m, line);
            assert(runs(m, line)[x].contains(b));
            assert(runs(m, line)[y].contains(b));
        }
    }
}

/// Whether each forked tree listed stands on its own root, in the order of the roots.
proof fn lemma_fork_roots(m: Forest, roots: Seq<Seq<char>>)
    requires
        sorted(roots),
    ensures
        sorted(skipped_roots(rooted_skips(m, roots))),
        forall|i: int|
            0 <= i < rooted_skips(m, roots).len() ==> roots.contains(
                (#[trigger] rooted_skips(m, roots)[i]).root,
            ) && any_forked(m, tree(m, rooted_skips(m, roots)[i].root)),
    decreases roots.len(),
{
    if roots.len() > 0 {
        let short = roots.drop_last();
        assert forall|x: int, y: int| 0 <= x < y < short.len() implies lex_less(
            #[trigger] short[x],
            #[trigger] short[y],
        ) by {
            assert(lex_less(roots[x], roots[y]));
        }
        lemma_fork_roots(m, short);
        let before = rooted_skips(m, short);
        let all = rooted_skips(m, roots);
        let last = roots[roots.len() - 1];
        assert forall|i: int| 0 <= i < all.len() implies roots.contains((#[trigger] all[i]).root)
            && any_forked(m, tree(m, all[i].root)) by {
            if i < before.len() {
                assert(all[i] == before[i]);
                assert(short.contains(before[i].root));
                let k = choose|k: int| 0 <= k < short.len() && short[k] == before[i].root;
                assert(roots[k] == before[i].root);
            } else {
                assert(roots.contains(last));
            }
        }
        let r = skipped_roots(all);
        assert forall|x: int, y: int| 0 <= x < y < r.len() implies lex_less(
            #[trigger] r[x],
            #[trigger] r[y],
        ) by {
            assert(all[x] == before[x]);
            assert(short.contains(before[x].root));
            let k = choose|k: int| 0 <= k < short.len() && short[k] == before[x].root;
            if y < before.len() {
                assert(all[y] == before[y]);
                assert(lex_less(skipped_roots(before)[x], skipped_roots(before)[y]));
            } else {
                assert(lex_less(roots[k], roots[roots.len() - 1]));
            }
        }
    }
}

/// Where a plan lists a branch, given as a skipped component or a chain.
pub open spec fn lists(plan: NativeStackPlan, skipped: bool, i: int, b: Seq<char>) -> bool {
    if skipped {
        0 <= i < plan.skipped.len() && plan.skipped@[i]@.branches.contains(b)
    } else {
        0 <= i < plan.chains.len() && plan.chains@[i]@.branches.contains(b)
    }
}

/// Unless the trunk is recorded above itself, a plan lists no branch twice: not in two chains,
/// not in two skipped components, and not in a chain and a component.
pub proof fn law_branch_is_planned_once(
    s: StackView,
    plan: NativeStackPlan,
    b: Seq<char>,
    skipped1: bool,
    i: int,
    skipped2: bool,
    j: int,
)
    requires
        plans(s, plan),
        !rooted(s.branches, s.trunk, s.trunk),
        lists(plan, skipped1, i, b),
        lists(plan, skipped2, j, b),
    ensures
        skipped1 == skipped2 && i == j,
{
    let m = s.branches;
    let roots = ranked(children(m, s.trunk));
    let forks = rooted_skips(m, roots);
    assert(apart(m, s.trunk, roots)) by {
        assert forall|k: int| 0 <= k < roots.len() implies is_child(m, s.trunk, #[trigger] roots[k])
            && breadth_first(m, roots[k], topo(m, roots[k])) by {
            assert(roots.contains(roots[k]));
            assert(children(m, s.trunk).contains(roots[k]));
        }
    }
    if !skipped1 && !skipped2 {
        assert(plan.chains@[i]@ == chain_views(plan.chains@)[i]);
        assert(plan.chains@[j]@ == chain_views(plan.chains@)[j]);
        if i < j {
            lemma_chains_apart(m, s.trunk, roots, i, j, b);
        } else if j < i {
            lemma_chains_apart(m, s.trunk, roots, j, i, b);
        }
    } else if skipped1 && skipped2 {
        if i < j {
            lemma_skips_apart(s, plan, b, i, j);
        } else if j < i {
            lemma_skips_apart(s, plan, b, j, i);
        }
    } else {
        let (c, e) = if skipped1 { (j, i) } else { (i, j) };
        lemma_chain_skip_apart(s, plan, b, c, e);
    }
}

/// A branch of a chain stands in an unforked tree on a root.
proof fn lemma_chain_root(s: StackView, plan: NativeStackPlan, b: Seq<char>, i: int) -> (r: Seq<
    char,
>)
    requires
        plans(s, plan),
        lists(plan, false, i, b),
    ensures
        ranked(children(s.branches, s.trunk)).contains(r),
        is_child(s.branches, s.trunk, r),
        !any_forked(s.branches, tree(s.branches, r)),
        tree(s.branches, r).contains(b),
{
    let m = s.branches;
    let roots = ranked(children(m, s.trunk));
    let c = chain_views(plan.chains@)[i];
    assert(plan.chains@[i]@ == c);
    lemma_rooted_chains(m, roots);
    assert(has_root(m, roots, rooted_chains(m, roots)[i]));
    let (k, x) = choose|k: int, x: int| #[trigger] from_root(m, roots, c, k, x);
    lemma_run_in_tree(m, roots[k], x, b);
    assert(roots.contains(roots[k]));
    assert(children(m, s.trunk).contains(roots[k]));
    roots[k]
}

/// A branch of a skipped component is either in a forked tree on a root, or in no tree.
proof fn lemma_skip_root(s: StackView, plan: NativeStackPlan, b: Seq<char>, i: int)
    requires
        plans(s, plan),
        lists(plan, true, i, b),
    ensures
        ({
            let m = s.branches;
            let roots = ranked(children(m, s.trunk));
            let forks = rooted_skips(m, roots);
            let e = skipped_views(plan.skipped@)[i];
            if i < forks.len() {
                &&& e == forks[i]
                &&& roots.contains(e.root)
                &&& is_child(m, s.trunk, e.root)
                &&& any_forked(m, tree(m, e.root))
                &&& tree(m, e.root).contains(b)
            } else {
                &&& component(m, astray(m, s.trunk), e.root).contains(b)
                &&& !rooted(m, s.trunk, b)
            }
        }),
{
    let m = s.branches;
    let roots = ranked(children(m, s.trunk));
    let forks = rooted_skips(m, roots);
    let all = skipped_views(plan.skipped@);
    assert(all[i] == plan.skipped@[i]@);
    assert(all[i].branches.contains(b));
    if i < forks.len() {
        assert(all.take(forks.len() as int)[i] == all[i]);
        lemma_fork_roots(m, roots);
        assert(roots.contains(forks[i].root));
        assert(children(m, s.trunk).contains(forks[i].root));
    } else {
        let area = astray(m, s.trunk);
        let n = choose|n: nat| joined_in(m, area, all[i].root, b, n);
        assert(joined_in(m, area, all[i].root, b, n));
    }
}

proof fn lemma_chain_skip_apart(s: StackView, plan: NativeStackPlan, b: Seq<char>, c: int, e: int)
    requires
        plans(s, plan),
        !rooted(s.branches, s.trunk, s.trunk),
        lists(plan, false, c, b),
    ensures
        !lists(plan, true, e, b),
{
    if lists(plan, true, e, b) {
        let m = s.branches;
        let r = lemma_chain_root(s, plan, b, c);
        lemma_skip_root(s, plan, b, e);
        let q = skipped_views(plan.skipped@)[e].root;
        if e < rooted_skips(m, ranked(children(m, s.trunk))).len() {
            lemma_trees_apart(m, s.trunk, r, q, b);
        } else {
            assert(rooted(m, s.trunk, b));
        }
    }
}

proof fn lemma_skips_apart(s: StackView, plan: NativeStackPlan, b: Seq<char>, i: int, j: int)
    requires
        plans(s, plan),
        !rooted(s.branches, s.trunk, s.trunk),
        lists(plan, true, i, b),
        i < j,
    ensures
        !lists(plan, true, j, b),
{
    if lists(plan, true, j, b) {
        lemma_skips_meet(s, plan, b, i, j);
    }
}

/// Two components that hold one branch have one root.
proof fn lemma_skips_meet(s: StackView, plan: NativeStackPlan, b: Seq<char>, i: int, j: int)
    requires
        plans(s, plan),
        !rooted(s.branches, s.trunk, s.trunk),
        lists(plan, true, i, b),
        lists(plan, true, j, b),
    ensures
        i >= j,
{
    let m = s.branches;
    let roots = ranked(children(m, s.trunk));
    let forks = rooted_skips(m, roots);
    let all = skipped_views(plan.skipped@);
    lemma_skip_root(s, plan, b, i);
    lemma_skip_root(s, plan, b, j);
    lemma_fork_roots(m, roots);
    if i >= j {
    } else if j < forks.len() {
        assert(lex_less(skipped_roots(forks)[i], skipped_roots(forks)[j]));
        lex_less_total(forks[i].root, forks[j].root);
        lemma_trees_apart(m, s.trunk, forks[i].root, forks[j].root, b);
    } else if i < forks.len() {
        assert(rooted(m, s.trunk, b));
    } else {
        let area = astray(m, s.trunk);
        let rest = all.skip(forks.len() as int);
        let x = i - forks.len();
        let y = j - forks.len();
        assert(rest[x] == all[i] && rest[y] == all[j]);
        let n = choose|n: nat| joined_in(m, area, rest[y].root, b, n);
        lemma_component_back(m, area, rest[x].root, rest[y].root, b, n);
        let k = choose|n: nat| joined_in(m, area, rest[x].root, b, n);
        lemma_component_back(m, area, rest[y].root, rest[x].root, b, k);
        assert(lex_less(skipped_roots(rest)[x], skipped_roots(rest)[y]));
        lex_less_total(rest[x].root, rest[y].root);
    }
}

/// A component's first branch, among the components that another listing reports, stands first
/// there too.
proof fn lemma_stray_root(
    m: Forest,
    within: Set<Seq<char>>,
    s: Seq<SkippedView>,
    t: Seq<SkippedView>,
    i: int,
)
    requires
        strays(m, within, s),
        strays(m, within, t),
        0 <= i < s.len(),
    ensures
        skipped_roots(t).contains(s[i].root),
{
    let r = s[i].root;
    assert(within.contains(r));
    let k = choose|k: int| 0 <= k < t.len() && component(m, within, (#[trigger] t[k]).root).contains(r);
    let q = t[k].root;
    assert(within.contains(q));
    assert(joined_in(m, within, r, r, 0));
    assert(component(m, within, r).contains(r));
    let n = choose|n: nat| joined_in(m, within, q, r, n);
    lemma_component_back(m, within, r, q, r, n);
    assert(component(m, within, r).contains(q));
    assert(q == r || lex_less(r, q));
    assert(r == q || lex_less(q, r));
    if q != r {
        lex_less_total(q, r);
    }
    assert(skipped_roots(t)[k] == r);
}

/// Only one listing reports the components of branches.
proof fn lemma_strays_unique(
    m: Forest,
    within: Set<Seq<char>>,
    s: Seq<SkippedView>,
    t: Seq<SkippedView>,
)
    requires
        strays(m, within, s),
        strays(m, within, t),
    ensures
        s == t,
{
    let a = skipped_roots(s);
    let b = skipped_roots(t);
    assert forall|x: Seq<char>| #[trigger] a.contains(x) <==> b.contains(x) by {
        if a.contains(x) {
            let i = choose|i: int| 0 <= i < a.len() && a[i] == x;
            assert(s[i].root == x);
            lemma_stray_root(m, within, s, t, i);
        }
        if b.contains(x) {
            let i = choose|i: int| 0 <= i < b.len() && b[i] == x;
            assert(t[i].root == x);
            lemma_stray_root(m, within, t, s, i);
        }
    }
    let both = a.to_set();
    assert forall|x: Seq<char>| #[trigger] b.contains(x) <==> both.contains(x) by {
        assert(a.contains(x) <==> b.contains(x));
    }
    assert(ranks(a, both));
    assert(ranks(b, both));
    lemma_ranked(a, both);
    lemma_ranked(b, both);
    assert(a == b);
    assert(s.len() == a.len() && t.len() == b.len());
    assert forall|i: int| 0 <= i < s.len() implies s[i] == t[i] by {
        assert(a[i] == s[i].root);
        assert(b[i] == t[i].root);
    }
    assert(s =~= t);
}

/// All plans of a stack say the same: its record alone decides its chains and what is skipped.
pub proof fn law_plan_is_unique(s: StackView, p: NativeStackPlan, q: NativeStackPlan)
    requires
        plans(s, p),
        plans(s, q),
    ensures
        chain_views(p.chains@) == chain_views(q.chains@),
        skipped_views(p.skipped@) == skipped_views(q.skipped@),
{
    let m = s.branches;
    let n = rooted_skips(m, ranked(children(m, s.trunk))).len() as int;
    let a = skipped_views(p.skipped@);
    let b = skipped_views(q.skipped@);
    lemma_strays_unique(m, astray(m, s.trunk), a.skip(n), b.skip(n));
    assert(a =~= a.take(n) + a.skip(n));
    assert(b =~= b.take(n) + b.skip(n));
}

/// A lookup shows one thing.
pub proof fn law_lookup_shows_one_thing(
    chain: ChainView,
    pr_number: u64,
    lookup: Result<LookupView, Seq<char>>,
    r: InspectionView,
    q: InspectionView,
)
    requires
        looked_up(chain, pr_number, lookup, r),
        looked_up(chain, pr_number, lookup, q),
    ensures
        r == q,
{
    if let Ok(LookupView::Found(info)) = lookup {
        let l = info.pull_requests;
        assert forall|x: Option<usize>, y: Option<usize>|
            #![trigger place(l, pr_number, x), place(l, pr_number, y)]
            place(l, pr_number, x) && place(l, pr_number, y) implies x == y by {
            match (x, y) {
                (Some(a), Some(b)) => {
                    if a < b {
                        assert(l[a - 1] == pr_number);
                    } else if b < a {
                        assert(l[b - 1] == pr_number);
                    }
                },
                (Some(a), None) => {
                    assert(l[a - 1] == pr_number);
                },
                (None, Some(b)) => {
                    assert(l[b - 1] == pr_number);
                },
                (None, None) => {},
            }
        }
    }
}

/// Inspecting all branches and inspecting one find the same of a branch with a pull request,
/// where the lookup of its pull request answers as the one of its chain did.
pub proof fn law_inspecting_all_agrees_with_one(
    s: StackView,
    plan: NativeStackPlan,
    lookups: Seq<Result<NativeStackLookup, String>>,
    branch: Seq<char>,
    lookup: Result<LookupView, Seq<char>>,
    all: InspectionView,
    one: Inspect,
)
    requires
        plans(s, plan),
        lookups.len() == plan.chains@.len(),
        branch != s.trunk,
        pr_of(s.branches, branch) is Some,
        forall|i: int|
            0 <= i < plan.chains@.len() && plan.chains@[i]@.branches.contains(branch)
                ==> lookup_view(#[trigger] lookups[i]) == lookup,
        found(s, plan, lookups, branch, all),
        inspects(s, branch, one),
    ensures
        match one {
            Inspect::Settled(f) => f@ == all,
            Inspect::Lookup { chain, pr_number } => looked_up(chain@, pr_number, lookup, all)
                && forall|r: InspectionView|
                #[trigger] looked_up(chain@, pr_number, lookup, r) ==> r == all,
        },
{
    let (other, to) = choose|other: NativeStackPlan, to: Place|
        #![trigger plans(s, other), placed(other, branch, to)]
        plans(s, other) && placed(other, branch, to) && match to {
            Place::Skipped(i) => one matches Inspect::Settled(f) && f@ == unrepresentable(
                other.skipped@[i as int]@,
            ),
            Place::Chain(i) => one matches Inspect::Lookup { chain, pr_number } && chain@
                == other.chains@[i as int]@ && pr_of(s.branches, branch) == Some(pr_number),
            Place::Nowhere => one matches Inspect::Settled(f) && f@ == not_applicable(branch),
        };
    law_plan_is_unique(s, plan, other);
    let at = choose|at: Place| #[trigger]
        placed(plan, branch, at) && finding(s, plan, lookups, branch, at, all);
    lemma_placed_once(plan, other, branch, at, to);
    match at {
        Place::Skipped(i) => {
            assert(skipped_views(plan.skipped@)[i as int] == plan.skipped@[i as int]@);
            assert(skipped_views(other.skipped@)[i as int] == other.skipped@[i as int]@);
        },
        Place::Chain(i) => {
            assert(chain_views(plan.chains@)[i as int] == plan.chains@[i as int]@);
            assert(chain_views(other.chains@)[i as int] == other.chains@[i as int]@);
            assert(lookup_view(lookups[i as int]) == lookup);
        },
        Place::Nowhere => {},
    }
    if let Inspect::Lookup { chain, pr_number } = one {
        assert forall|r: InspectionView| #[trigger]
            looked_up(chain@, pr_number, lookup, r) implies r == all by {
            law_lookup_shows_one_thing(chain@, pr_number, lookup, r, all);
        }
    }
}

/// Plans that say the same place a branch alike.
proof fn lemma_placed_once(
    p: NativeStackPlan,
    q: NativeStackPlan,
    branch: Seq<char>,
    x: Place,
    y: Place,
)
    requires
        chain_views(p.chains@) == chain_views(q.chains@),
        skipped_views(p.skipped@) == skipped_views(q.skipped@),
        placed(p, branch, x),
        placed(q, branch, y),
    ensures
        x == y,
{
    let skipped = skipped_views(p.skipped@);
    let chains = chain_views(p.chains@);
    match (x, y) {
        (Place::Skipped(i), Place::Skipped(j)) => {
            assert(skipped[i as int].branches.contains(branch));
            assert(skipped[j as int].branches.contains(branch));
        },
        (Place::Skipped(i), _) => {
            assert(skipped[i as int].branches.contains(branch));
        },
        (_, Place::Skipped(j)) => {
            assert(skipped[j as int].branches.contains(branch));
        },
        (Place::Chain(i), Place::Chain(j)) => {
            assert(chains[i as int].branches.contains(branch));
            assert(chains[j as int].branches.contains(branch));
        },
        (Place::Chain(i), Place::Nowhere) => {
            assert(chains[i as int].branches.contains(branch));
        },
        (Place::Nowhere, Place::Chain(j)) => {
            assert(chains[j as int].branches.contains(branch));
        },
        (Place::Nowhere, Place::Nowhere) => {},
    }
}

/// The numbers of a list of branches are those recorded, in the order of the branches.
pub proof fn law_numbers_follow_branches(m: Forest, names: Seq<Seq<char>>, b: Seq<char>)
    ensures
        prs_of(m, Seq::<Seq<char>>::empty()).len() == 0,
        !m.contains_key(b) || m[b].pr_number is None ==> prs_of(m, names.push(b)) == prs_of(m, names),
        m.contains_key(b) && m[b].pr_number is Some ==> prs_of(m, names.push(b)) == prs_of(
            m,
            names,
        ).push(m[b].pr_number->0),
        pr_of(m, b) is Some <==> m.contains_key(b) && m[b].pr_number is Some,
        pr_of(m, b) is Some ==> pr_of(m, b) == m[b].pr_number,
{
    assert(names.push(b).drop_last() =~= names);
}

/// Two neighbours of a line that both have pull requests are neighbours in one of its runs.
pub proof fn law_neighbours_stay_together(m: Forest, line: Seq<Seq<char>>, i: int)
    requires
        0 <= i,
        i + 1 < line.len(),
        pr_of(m, line[i]) is Some,
        pr_of(m, line[i + 1]) is Some,
    ensures
        exists|k: int, j: int|
            #![trigger runs(m, line)[k][j]]
            0 <= k < runs(m, line).len() && 0 <= j && j + 1 < runs(m, line)[k].len() && runs(
                m,
                line,
            )[k][j] == line[i] && runs(m, line)[k][j + 1] == line[i + 1],
{
    lemma_neighbours_cut(m, line, i);
    let (done, open) = cut(m, line);
    if exists|j: int|
        0 <= j && j + 1 < open.len() && #[trigger] open[j] == line[i] && open[j + 1] == line[i + 1] {
        let j = choose|j: int|
            0 <= j && j + 1 < open.len() && #[trigger] open[j] == line[i] && open[j + 1] == line[i
                + 1];
        assert(runs(m, line)[done.len() as int] == open);
        assert(runs(m, line)[done.len() as int][j] == line[i]);
    } else {
        let (k, j) = choose|k: int, j: int|
            #![trigger done[k][j]]
            0 <= k < done.len() && 0 <= j && j + 1 < done[k].len() && done[k][j] == line[i]
                && done[k][j + 1] == line[i + 1];
        assert(runs(m, line)[k] == done[k]);
        assert(runs(m, line)[k][j] == line[i]);
    }
}

proof fn lemma_neighbours_cut(m: Forest, line: Seq<Seq<char>>, i: int)
    requires
        0 <= i,
        i + 1 < line.len(),
        pr_of(m, line[i]) is Some,
        pr_of(m, line[i + 1]) is Some,
    ensures
        ({
            let (done, open) = cut(m, line);
            ||| exists|j: int|
                0 <= j && j + 1 < open.len() && #[trigger] open[j] == line[i] && open[j + 1]
                    == line[i + 1]
            ||| exists|k: int, j: int|
                #![trigger done[k][j]]
                0 <= k < done.len() && 0 <= j && j + 1 < done[k].len() && done[k][j] == line[i]
                    && done[k][j + 1] == line[i + 1]
        }),
    decreases line.len(),
{
    let low = line.drop_last();
    let (before, left) = cut(m, low);
    let (done, open) = cut(m, line);
    if i + 1 < low.len() {
        assert(low[i] == line[i] && low[i + 1] == line[i + 1]);
        lemma_neighbours_cut(m, low, i);
        if exists|j: int|
            0 <= j && j + 1 < left.len() && #[trigger] left[j] == low[i] && left[j + 1] == low[i
                + 1] {
            let j = choose|j: int|
                0 <= j && j + 1 < left.len() && #[trigger] left[j] == low[i] && left[j + 1] == low[i
                    + 1];
            if pr_of(m, line.last()) is Some {
                assert(open[j] == line[i]);
            } else {
                assert(done[before.len() as int] == left);
                assert(done[before.len() as int][j] == line[i]);
            }
        } else {
            let (k, j) = choose|k: int, j: int|
                #![trigger before[k][j]]
                0 <= k < before.len() && 0 <= j && j + 1 < before[k].len() && before[k][j] == low[i]
                    && before[k][j + 1] == low[i + 1];
            assert(done[k] == before[k]);
            assert(done[k][j] == line[i]);
        }
    } else {
        assert(low[i] == line[i]);
        assert(low.last() == line[i]);
        assert(left == cut(m, low.drop_last()).1.push(line[i]));
        assert(open == left.push(line[i + 1]));
        assert(open[left.len() - 1] == line[i]);
    }
}

/// A tree that forks gives no chains; any other gives a chain for each of its runs, behind those
/// of the trees before it.
pub proof fn law_forked_tree_gives_no_chains(
    m: Forest,
    roots: Seq<Seq<char>>,
    root: Seq<char>,
    line: Seq<Seq<char>>,
)
    requires
        breadth_first(m, root, line),
    ensures
        ({
            let whole = seq![root] + line;
            let fork = exists|b: Seq<char>, c: Seq<char>, d: Seq<char>|
                whole.contains(b) && #[trigger] is_child(m, b, c) && #[trigger] is_child(m, b, d)
                    && c != d;
            let before = rooted_chains(m, roots);
            let after = rooted_chains(m, roots.push(root));
            &&& fork ==> after == before && rooted_skips(m, roots.push(root)).len() == rooted_skips(
                m,
                roots,
            ).len() + 1
            &&& !fork ==> after.len() == before.len() + runs(m, whole).len() && rooted_skips(
                m,
                roots.push(root),
            ) == rooted_skips(m, roots)
            &&& !fork ==> forall|i: int|
                #![trigger runs(m, whole)[i]]
                0 <= i < runs(m, whole).len() ==> after[before.len() + i].branches == runs(
                    m,
                    whole,
                )[i] && after[before.len() + i].pr_numbers == prs_of(m, runs(m, whole)[i])
        }),
{
    crate::stack::lemma_topo_unique(m, root, line);
    let whole = seq![root] + line;
    assert(roots.push(root).drop_last() =~= roots);
    if any_forked(m, whole) {
        let i = choose|i: int| 0 <= i < whole.len() && #[trigger] forked(m, whole[i]);
        assert(whole.contains(whole[i]));
    }
    if exists|b: Seq<char>, c: Seq<char>, d: Seq<char>|
        whole.contains(b) && #[trigger] is_child(m, b, c) && #[trigger] is_child(m, b, d) && c
            != d {
        let (b, c, d) = choose|b: Seq<char>, c: Seq<char>, d: Seq<char>|
            whole.contains(b) && #[trigger] is_child(m, b, c) && #[trigger] is_child(m, b, d) && c
                != d;
        let i = choose|i: int| 0 <= i < whole.len() && whole[i] == b;
        assert(forked(m, whole[i]));
    }
}

/// The chains that can be linked are exactly those with at least two pull requests.
pub proof fn law_a_link_needs_two(s: Seq<ChainView>, c: ChainView)
    ensures
        c.pr_numbers.len() >= 2 ==> linkable(s.push(c)) == linkable(s).push(c),
        c.pr_numbers.len() < 2 ==> linkable(s.push(c)) == linkable(s),
        linkable(Seq::<ChainView>::empty()).len() == 0,
{
    reveal(Seq::filter);
    assert(s.push(c).drop_last() =~= s);
}

/// A native stack that GitHub found is in sync exactly where it holds the local chain's pull
/// requests in their order; the inspection tells what GitHub told, with the pull request's place
/// counted from one.
pub proof fn law_found_stack_is_told(
    chain: ChainView,
    pr_number: u64,
    lookup: Result<LookupView, Seq<char>>,
    r: InspectionView,
)
    requires
        looked_up(chain, pr_number, lookup, r),
    ensures
        r.local == chain,
        lookup matches Ok(LookupView::Found(info)) ==> {
            &&& info.pull_requests == chain.pr_numbers ==> r.state == "in_sync"@
            &&& info.pull_requests != chain.pr_numbers ==> r.state == "diverged"@
            &&& r.github is Some
            &&& r.github->0.number == info.number
            &&& r.github->0.pull_requests == info.pull_requests
            &&& r.github->0.open == info.open
            &&& r.github->0.position matches Some(p) ==> 1 <= p <= info.pull_requests.len()
                && info.pull_requests[p - 1] == pr_number
            &&& r.github->0.position is None ==> !info.pull_requests.contains(pr_number)
        },
        !(lookup matches Ok(LookupView::Found(_))) ==> r.github is None,
        lookup matches Err(text) ==> r.state == "error"@ && r.error == Some(text),
        lookup == Ok::<LookupView, Seq<char>>(LookupView::NotLinked) ==> r.state == "not_linked"@
            && r.error is None,
        lookup == Ok::<LookupView, Seq<char>>(LookupView::Unavailable) ==> r.state
            == "unavailable"@ && r.error is None,
{
}

/// In a fork workflow no branch is asked about at GitHub: each is told not to apply, with the
/// reason; the trunk and a branch that is not recorded stand alone.
pub proof fn law_fork_is_never_looked_up(s: StackView, branch: Seq<char>, r: InspectionView)
    requires
        fork_inspects(s, branch, r),
    ensures
        r.state == "not_applicable"@,
        r.github is None,
        r.error is None,
        r.reason == Some(fork_reason()),
        branch == s.trunk || !s.branches.contains_key(branch) ==> r.local.branches == seq![branch]
            && r.local.pr_numbers.len() == 0,
        branch != s.trunk && s.branches.contains_key(branch) ==> r.local.branches.contains(branch),
{
    if branch != s.trunk && s.branches.contains_key(branch) {
        let plan = choose|plan: NativeStackPlan| #[trigger]
            plans(s, plan) && fork_found(s, plan, branch, r);
        let at = choose|at: Place| #[trigger]
            placed(plan, branch, at) && fork_finding(s, plan, branch, at, r);
        match at {
            Place::Skipped(i) => {
                assert(skipped_views(plan.skipped@)[i as int] == plan.skipped@[i as int]@);
            },
            Place::Chain(i) => {
                assert(chain_views(plan.chains@)[i as int] == plan.chains@[i as int]@);
            },
            Place::Nowhere => {
                assert(seq![branch][0] == branch);
            },
        }
    }
}

} // verus!
