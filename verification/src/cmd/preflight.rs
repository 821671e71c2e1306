//! What a rebase would do, found out before it is done.

use crate::cmd::restack::{effective_old_base, replay_base};
use crate::cmd::track::{infer_parent, inferred};
use crate::error::{ErrorView, EzError};
use crate::git::GitView;
use crate::json::{no_fields, text_list, Json, JsonObject, JsonView};
use crate::stack::{topo, StackState, StackView};
use crate::text::{
    begins, count, decimal, holds, lines, lines_of, same, starts_with, trim, trimmed, views,
};
use vstd::prelude::*;
use vstd::string::*;

verus! {

/// A branch that a rebase would move.
#[derive(Debug)]
pub struct RebaseCandidate {
    pub branch: String,
    pub destination_tip: String,
    pub old_base: String,
    pub derived_base: bool,
}

/// The contents of a `RebaseCandidate`.
#[verifier::ext_equal]
pub struct RebaseView {
    pub branch: Seq<char>,
    pub destination_tip: Seq<char>,
    pub old_base: Seq<char>,
    pub derived_base: bool,
}

impl View for RebaseCandidate {
    type V = RebaseView;

    open spec fn view(&self) -> RebaseView {
        RebaseView {
            branch: self.branch@,
            destination_tip: self.destination_tip@,
            old_base: self.old_base@,
            derived_base: self.derived_base,
        }
    }
}

/// The contents of a list of candidates.
pub open spec fn rebase_views(s: Seq<RebaseCandidate>) -> Seq<RebaseView> {
    s.map_values(|c: RebaseCandidate| c@)
}

/// How many commits of a branch the destination lacks, and how many it already holds.
#[derive(Clone, Copy, Debug, PartialEq, Eq, Structural)]
pub struct CherryStats {
    pub unique: u64,
    pub redundant: u64,
}

/// What was found of a branch before its rebase.
#[derive(Debug)]
pub struct BranchPreflight {
    pub branch: String,
    pub branch_tip: String,
    pub derived_base: bool,
    pub merge_commits: u64,
    pub cherry: CherryStats,
}

/// The contents of a `BranchPreflight`.
#[verifier::ext_equal]
pub struct PreflightView {
    pub branch: Seq<char>,
    pub branch_tip: Seq<char>,
    pub derived_base: bool,
    pub merge_commits: u64,
    pub cherry: CherryStats,
}

impl View for BranchPreflight {
    type V = PreflightView;

    open spec fn view(&self) -> PreflightView {
        PreflightView {
            branch: self.branch@,
            branch_tip: self.branch_tip@,
            derived_base: self.derived_base,
            merge_commits: self.merge_commits,
            cherry: self.cherry,
        }
    }
}

impl PreflightView {
    /// Whether the destination already holds every commit of the branch.
    pub open spec fn all_redundant(self) -> bool {
        self.cherry.unique == 0 && self.cherry.redundant > 0 && self.merge_commits == 0
    }
}

impl BranchPreflight {
    /// Whether the destination already holds every commit of the branch, of which there is at
    /// least one and none is a merge.
    pub fn all_redundant(&self) -> (r: bool)
        ensures
            r == self@.all_redundant(),
    {
        self.cherry.unique == 0 && self.cherry.redundant > 0 && self.merge_commits == 0
    }
}

/// What was found of a set of branches before their rebase.
#[derive(Debug)]
pub struct RebasePreflight {
    pub branches: Vec<BranchPreflight>,
}

/// The sum of the merge commits of the branches.
pub open spec fn merge_sum(s: Seq<BranchPreflight>) -> nat
    decreases s.len(),
{
    if s.len() == 0 {
        0
    } else {
        merge_sum(s.drop_last()) + s.last().merge_commits as nat
    }
}

/// The sum of the redundant commits of the branches.
pub open spec fn redundant_sum(s: Seq<BranchPreflight>) -> nat
    decreases s.len(),
{
    if s.len() == 0 {
        0
    } else {
        redundant_sum(s.drop_last()) + s.last().cherry.redundant as nat
    }
}

proof fn lemma_sums_grow(s: Seq<BranchPreflight>, n: int)
    requires
        0 <= n <= s.len(),
    ensures
        merge_sum(s.take(n)) <= merge_sum(s),
        redundant_sum(s.take(n)) <= redundant_sum(s),
    decreases s.len(),
{
    if n < s.len() {
        lemma_sums_grow(s.drop_last(), n);
        assert(s.drop_last().take(n) =~= s.take(n));
    } else {
        assert(s.take(n) =~= s);
    }
}

impl RebasePreflight {
    /// Whether the sums over the branches are numbers that can be held.
    pub open spec fn fits(self) -> bool {
        merge_sum(self.branches@) <= u64::MAX && redundant_sum(self.branches@) <= u64::MAX
    }

    /// Whether the sums over the branches are numbers that can be held.
    pub fn counts_fit(&self) -> (r: bool)
        ensures
            r == self.fits(),
    {
        let mut merges: u64 = 0;
        let mut redundant: u64 = 0;
        let mut i: usize = 0;
        assert(self.branches@.take(0) =~= Seq::<BranchPreflight>::empty());
        while i < self.branches.len()
            invariant
                i <= self.branches.len(),
                merges == merge_sum(self.branches@.take(i as int)),
                redundant == redundant_sum(self.branches@.take(i as int)),
            decreases self.branches.len() - i,
        {
            proof {
                assert(self.branches@.take(i + 1).drop_last() =~= self.branches@.take(i as int));
                lemma_sums_grow(self.branches@, i + 1);
            }
            let b: &BranchPreflight = &self.branches[i];
            if merges > u64::MAX - b.merge_commits || redundant > u64::MAX - b.cherry.redundant {
                return false;
            }
            merges = merges + b.merge_commits;
            redundant = redundant + b.cherry.redundant;
            i += 1;
        }
        assert(self.branches@.take(self.branches.len() as int) =~= self.branches@);
        true
    }

    /// The sum of the merge commits of the branches.
    pub fn merge_commits(&self) -> (r: u64)
        requires
            merge_sum(self.branches@) <= u64::MAX,
        ensures
            r == merge_sum(self.branches@),
    {
        let mut sum: u64 = 0;
        let mut i: usize = 0;
        assert(self.branches@.take(0) =~= Seq::<BranchPreflight>::empty());
        while i < self.branches.len()
            invariant
                i <= self.branches.len(),
                merge_sum(self.branches@) <= u64::MAX,
                sum == merge_sum(self.branches@.take(i as int)),
            decreases self.branches.len() - i,
        {
            proof {
                assert(self.branches@.take(i + 1).drop_last() =~= self.branches@.take(i as int));
                lemma_sums_grow(self.branches@, i + 1);
            }
            sum = sum + self.branches[i].merge_commits;
            i += 1;
        }
        assert(self.branches@.take(self.branches.len() as int) =~= self.branches@);
        sum
    }
}

/// How many of the lines begin with `p`.
pub open spec fn lines_with(s: Seq<Seq<char>>, p: Seq<char>) -> nat
    decreases s.len(),
{
    if s.len() == 0 {
        0
    } else {
        lines_with(s.drop_last(), p) + if begins(s.last(), p) {
            1nat
        } else {
            0
        }
    }
}

/// The counts that a listing of `git cherry` shows.
pub open spec fn cherry_counts(cherry: Seq<char>) -> (nat, nat) {
    (lines_with(lines_of(cherry), "+ "@), lines_with(lines_of(cherry), "- "@))
}

/// The counts that a listing of `git cherry` shows: a line that begins with `+ ` stands for a
/// commit that the destination lacks, one that begins with `- ` for one that it holds.
pub fn cherry_stats(cherry: &str) -> (r: CherryStats)
    ensures
        (r.unique as nat, r.redundant as nat) == cherry_counts(cherry@),
{
    let all: Vec<String> = lines(cherry);
    let ghost views_all = views(all@);
    let mut unique: u64 = 0;
    let mut redundant: u64 = 0;
    let mut i: usize = 0;
    assert(views_all.take(0) =~= Seq::<Seq<char>>::empty());
    while i < all.len()
        invariant
            i <= all.len(),
            views_all == views(all@),
            unique == lines_with(views_all.take(i as int), "+ "@),
            redundant == lines_with(views_all.take(i as int), "- "@),
            unique <= i,
            redundant <= i,
        decreases all.len() - i,
    {
        proof {
            assert(views_all.take(i + 1).drop_last() =~= views_all.take(i as int));
            assert(views_all.take(i + 1).last() == all@[i as int]@);
            reveal_strlit("+ ");
            reveal_strlit("- ");
            let line = all@[i as int]@;
            if begins(line, "+ "@) && begins(line, "- "@) {
                assert(line.take(2)[0] == "+ "@[0]);
                assert(line.take(2)[0] == "- "@[0]);
            }
        }
        if starts_with(&all[i], "+ ") {
            unique = unique + 1;
        } else if starts_with(&all[i], "- ") {
            redundant = redundant + 1;
        }
        i += 1;
    }
    assert(views_all.take(all.len() as int) =~= views_all);
    CherryStats { unique, redundant }
}

/// What git said of a candidate: the tip of its branch, the number of merge commits to be
/// replayed, and the listing of `git cherry` against the destination.
#[derive(Debug)]
pub struct CandidateFacts {
    pub branch_tip: Result<String, String>,
    pub merge_commits: Result<u64, String>,
    pub cherry: Result<String, String>,
}

/// Whether `p` is what the facts show of a candidate.
pub open spec fn inspected(c: RebaseView, f: CandidateFacts, p: PreflightView) -> bool {
    &&& f.branch_tip matches Ok(tip) && p.branch_tip == tip@
    &&& f.merge_commits == Ok::<u64, String>(p.merge_commits)
    &&& f.cherry matches Ok(listing) && cherry_counts(listing@) == (
        p.cherry.unique as nat,
        p.cherry.redundant as nat,
    )
    &&& p.branch == c.branch
    &&& p.derived_base == c.derived_base
}

/// What git reported first, where one of the facts could not be had.
pub open spec fn facts_fault(f: CandidateFacts) -> Option<Seq<char>> {
    if f.branch_tip is Err {
        Some(f.branch_tip->Err_0@)
    } else if f.merge_commits is Err {
        Some(f.merge_commits->Err_0@)
    } else if f.cherry is Err {
        Some(f.cherry->Err_0@)
    } else {
        None
    }
}

/// What the facts show of a candidate, or the first failure to get one.
pub fn inspect_candidate(candidate: &RebaseCandidate, facts: &CandidateFacts) -> (r: Result<
    BranchPreflight,
    EzError,
>)
    ensures
        match r {
            Ok(p) => facts_fault(*facts) is None && inspected(candidate@, *facts, p@),
            Err(e) => facts_fault(*facts) matches Some(text) && e@ == ErrorView::Other(text),
        },
{
    let branch_tip: String = match &facts.branch_tip {
        Ok(tip) => tip.clone(),
        Err(e) => {
            return Err(EzError::Other(e.clone()));
        },
    };
    let merge_commits: u64 = match &facts.merge_commits {
        Ok(n) => *n,
        Err(e) => {
            return Err(EzError::Other(e.clone()));
        },
    };
    let cherry: CherryStats = match &facts.cherry {
        Ok(listing) => cherry_stats(listing),
        Err(e) => {
            return Err(EzError::Other(e.clone()));
        },
    };
    Ok(
        BranchPreflight {
            branch: candidate.branch.clone(),
            branch_tip,
            derived_base: candidate.derived_base,
            merge_commits,
            cherry,
        },
    )
}

/// What the facts show of all candidates.
pub open spec fn all_inspected(
    cs: Seq<RebaseCandidate>,
    fs: Seq<CandidateFacts>,
    p: RebasePreflight,
) -> bool {
    &&& p.branches@.len() == cs.len()
    &&& forall|i: int|
        0 <= i < cs.len() ==> inspected(cs[i]@, fs[i], (#[trigger] p.branches@[i])@)
}

/// Whether the first failure to get a fact is reported as `text`.
pub open spec fn first_fault(fs: Seq<CandidateFacts>, text: Seq<char>) -> bool {
    exists|i: int|
        {
            &&& 0 <= i < fs.len()
            &&& facts_fault(#[trigger] fs[i]) == Some(text)
            &&& forall|j: int| 0 <= j < i ==> facts_fault(#[trigger] fs[j]) is None
        }
}

/// What the facts show of all candidates, or the first failure to get one.
pub fn inspect_candidates(candidates: &Vec<RebaseCandidate>, facts: &Vec<CandidateFacts>) -> (r:
    Result<RebasePreflight, EzError>)
    requires
        facts.len() == candidates.len(),
    ensures
        match r {
            Ok(p) => all_inspected(candidates@, facts@, p) && forall|i: int|
                0 <= i < facts.len() ==> facts_fault(#[trigger] facts@[i]) is None,
            Err(e) => e@ matches ErrorView::Other(text) && first_fault(facts@, text),
        },
{
    let mut branches: Vec<BranchPreflight> = Vec::new();
    let mut i: usize = 0;
    while i < candidates.len()
        invariant
            i <= candidates.len(),
            facts.len() == candidates.len(),
            branches.len() == i,
            forall|j: int| 0 <= j < i ==> facts_fault(#[trigger] facts@[j]) is None,
            forall|j: int|
                0 <= j < i ==> inspected(candidates@[j]@, facts@[j], (#[trigger] branches@[j])@),
        decreases candidates.len() - i,
    {
        match inspect_candidate(&candidates[i], &facts[i]) {
            Ok(p) => {
                branches.push(p);
            },
            Err(e) => {
                assert(facts_fault(facts@[i as int]) is Some);
                return Err(e);
            },
        }
        i += 1;
    }
    Ok(RebasePreflight { branches })
}

/// A candidate with the parent that it is held against.
#[derive(Debug)]
pub struct ResolvedCandidate {
    pub parent: String,
    pub candidate: RebaseCandidate,
    /// Whether the parent's tip is not the one recorded.
    pub initially_stale: bool,
}

/// The contents of a `ResolvedCandidate`.
#[verifier::ext_equal]
pub struct ResolvedView {
    pub parent: Seq<char>,
    pub candidate: RebaseView,
    pub initially_stale: bool,
}

impl View for ResolvedCandidate {
    type V = ResolvedView;

    open spec fn view(&self) -> ResolvedView {
        ResolvedView {
            parent: self.parent@,
            candidate: self.candidate@,
            initially_stale: self.initially_stale,
        }
    }
}

/// How a recorded branch would be rebased: onto its recorded parent where git still knows that,
/// else onto the parent that the commit graph suggests. Nothing for a branch that does not exist
/// or whose parent cannot be found.
pub open spec fn resolved(
    g: GitView,
    s: StackView,
    branch: Seq<char>,
    parent: Seq<char>,
    recorded: Seq<char>,
) -> Option<ResolvedView> {
    if !g.has_branch(branch) {
        None
    } else if g.tip(parent) is Some {
        let tip = g.tip(parent)->0;
        let base = replay_base(g, branch, parent, recorded);
        Some(
            ResolvedView {
                parent,
                candidate: RebaseView {
                    branch,
                    destination_tip: tip,
                    old_base: base.0,
                    derived_base: base.1,
                },
                initially_stale: tip != recorded,
            },
        )
    } else if inferred(g, s, branch) is Some && g.tip(inferred(g, s, branch)->0) is Some {
        let p = inferred(g, s, branch)->0;
        let tip = g.tip(p)->0;
        Some(
            ResolvedView {
                parent: p,
                candidate: RebaseView {
                    branch,
                    destination_tip: tip,
                    old_base: trimmed(
                        match g.base(p, branch) {
                            Some(b) => b,
                            None => tip,
                        },
                    ),
                    derived_base: true,
                },
                initially_stale: true,
            },
        )
    } else {
        None
    }
}

/// How a recorded branch would be rebased.
pub fn resolved_candidate(
    git: &GitView,
    state: &StackState,
    branch: &str,
    recorded_parent: &str,
    recorded_parent_head: &str,
) -> (r: Option<ResolvedCandidate>)
    ensures
        (match r {
            Some(c) => Some(c@),
            None => None,
        }) == resolved(*git, state@, branch@, recorded_parent@, recorded_parent_head@),
{
    if !git.branch_exists(branch) {
        return None;
    }
    if let Some(destination_tip) = git.rev_parse(recorded_parent) {
        let initially_stale: bool = !same(&destination_tip, recorded_parent_head);
        let (old_base, derived_base) = effective_old_base(
            git,
            branch,
            recorded_parent,
            recorded_parent_head,
        );
        return Some(
            ResolvedCandidate {
                parent: recorded_parent.to_owned(),
                candidate: RebaseCandidate {
                    branch: branch.to_owned(),
                    destination_tip,
                    old_base,
                    derived_base,
                },
                initially_stale,
            },
        );
    }
    let parent: String = match infer_parent(git, branch, state) {
        Ok(p) => p,
        Err(_) => {
            return None;
        },
    };
    let destination_tip: String = match git.rev_parse(&parent) {
        Some(tip) => tip,
        None => {
            return None;
        },
    };
    let base: String = match git.merge_base(&parent, branch) {
        Some(b) => b,
        None => destination_tip.clone(),
    };
    Some(
        ResolvedCandidate {
            parent,
            candidate: RebaseCandidate {
                branch: branch.to_owned(),
                destination_tip,
                old_base: trim(&base).to_owned(),
                derived_base: true,
            },
            initially_stale: true,
        },
    )
}

/// The branches that will move, and the candidates, after the branches of `order`: a branch is
/// a candidate if its parent has moved or will move, and moves with it unless it already stands
/// on its destination.
pub open spec fn restack_plan(g: GitView, s: StackView, order: Seq<Seq<char>>) -> (
    Seq<Seq<char>>,
    Seq<RebaseView>,
)
    decreases order.len(),
{
    if order.len() == 0 {
        (Seq::empty(), Seq::empty())
    } else {
        let (moving, found) = restack_plan(g, s, order.drop_last());
        let b = order.last();
        if !s.managed(b) {
            (moving, found)
        } else {
            match resolved(g, s, b, s.branches[b].parent, s.branches[b].parent_head) {
                None => (moving, found),
                Some(r) => {
                    let parent_moves = moving.contains(r.parent);
                    if !r.initially_stale && !parent_moves {
                        (moving, found)
                    } else if parent_moves || r.candidate.destination_tip != r.candidate.old_base {
                        (moving.push(b), found.push(r.candidate))
                    } else {
                        (moving, found.push(r.candidate))
                    }
                },
            }
        }
    }
}

/// The branches of `order` that a restack would rebase.
pub fn restack_candidates(git: &GitView, state: &StackState, order: &Vec<String>) -> (r: Vec<
    RebaseCandidate,
>)
    ensures
        rebase_views(r@) == restack_plan(*git, state@, views(order@)).1,
{
    let ghost all = views(order@);
    let mut out: Vec<RebaseCandidate> = Vec::new();
    let mut moving: Vec<String> = Vec::new();
    let mut i: usize = 0;
    proof {
        assert(all.take(0) =~= Seq::<Seq<char>>::empty());
        assert(views(moving@) =~= Seq::<Seq<char>>::empty());
        assert(rebase_views(out@) =~= Seq::<RebaseView>::empty());
    }
    while i < order.len()
        invariant
            i <= order.len(),
            all == views(order@),
            (views(moving@), rebase_views(out@)) == restack_plan(*git, state@, all.take(i as int)),
        decreases order.len() - i,
    {
        let ghost held = rebase_views(out@);
        let ghost held_moving = views(moving@);
        proof {
            assert(all.take(i + 1).drop_last() =~= all.take(i as int));
            assert(all.take(i + 1).last() == order@[i as int]@);
        }
        if let Some(meta) = state.branches.get(&order[i]) {
            if let Some(found) = resolved_candidate(
                git,
                state,
                &order[i],
                &meta.parent,
                &meta.parent_head,
            ) {
                let parent_moves: bool = holds(&moving, &found.parent);
                if found.initially_stale || parent_moves {
                    if parent_moves || !same(
                        &found.candidate.destination_tip,
                        &found.candidate.old_base,
                    ) {
                        moving.push(order[i].clone());
                        assert(views(moving@) =~= held_moving.push(order@[i as int]@));
                    }
                    let ghost c = found.candidate@;
                    out.push(found.candidate);
                    assert(rebase_views(out@) =~= held.push(c));
                }
            }
        }
        i += 1;
    }
    assert(all.take(order.len() as int) =~= all);
    out
}

/// The descendants that a move takes along, after the branches of `order`.
pub open spec fn followers(g: GitView, s: StackView, order: Seq<Seq<char>>) -> Seq<RebaseView>
    decreases order.len(),
{
    if order.len() == 0 {
        Seq::empty()
    } else {
        let found = followers(g, s, order.drop_last());
        let b = order.last();
        match resolved(g, s, b, s.branches[b].parent, s.branches[b].parent_head) {
            Some(r) => found.push(r.candidate),
            None => found,
        }
    }
}

/// The branch that a move rebases onto `tip`.
pub open spec fn moved_candidate(
    g: GitView,
    s: StackView,
    current: Seq<char>,
    tip: Seq<char>,
) -> RebaseView {
    let base = replay_base(
        g,
        current,
        s.branches[current].parent,
        s.branches[current].parent_head,
    );
    RebaseView { branch: current, destination_tip: tip, old_base: base.0, derived_base: base.1 }
}

/// The branches that moving `current` onto the commit `destination` would rebase: the branch
/// itself, then its descendants.
pub fn move_candidates(
    git: &GitView,
    state: &StackState,
    current: &str,
    destination: &Result<String, String>,
) -> (r: Result<Vec<RebaseCandidate>, EzError>)
    ensures
        match r {
            Ok(v) => {
                &&& state@.managed(current@)
                &&& destination matches Ok(tip) && rebase_views(v@) == seq![
                    moved_candidate(*git, state@, current@, tip@),
                ] + followers(*git, state@, topo(state@.branches, current@))
            },
            Err(e) => if state@.managed(current@) {
                destination matches Err(text) && e@ == ErrorView::Other(text@)
            } else {
                e@ == ErrorView::BranchNotInStack(current@)
            },
        },
{
    let meta = match state.get_branch(current) {
        Ok(m) => m,
        Err(e) => {
            return Err(e);
        },
    };
    let destination_tip: String = match destination {
        Ok(tip) => tip.clone(),
        Err(text) => {
            return Err(EzError::Other(text.clone()));
        },
    };
    let (old_base, derived_base) = effective_old_base(
        git,
        current,
        &meta.parent,
        &meta.parent_head,
    );
    let mut out: Vec<RebaseCandidate> = Vec::new();
    out.push(
        RebaseCandidate { branch: current.to_owned(), destination_tip, old_base, derived_base },
    );
    let ghost first = out@[0]@;
    let order: Vec<String> = state.descendants_topo(current);
    let ghost all = views(order@);
    let mut i: usize = 0;
    proof {
        assert(all.take(0) =~= Seq::<Seq<char>>::empty());
        assert(rebase_views(out@) =~= seq![first] + followers(*git, state@, all.take(0)));
    }
    while i < order.len()
        invariant
            i <= order.len(),
            all == views(order@),
            all == topo(state@.branches, current@),
            crate::stack::breadth_first(state@.branches, current@, all),
            rebase_views(out@) == seq![first] + followers(*git, state@, all.take(i as int)),
        decreases order.len() - i,
    {
        let ghost held = rebase_views(out@);
        let ghost b = order@[i as int]@;
        proof {
            assert(all.take(i + 1).drop_last() =~= all.take(i as int));
            assert(all.take(i + 1).last() == b);
            assert(all[i as int] == b);
            assert(all.contains(b));
            let n = choose|n: nat| crate::stack::below(state@.branches, current@, b, n);
            assert(crate::stack::below(state@.branches, current@, b, n));
            assert(state@.managed(b));
        }
        match state.get_branch(&order[i]) {
            Ok(m) => {
                if let Some(found) = resolved_candidate(
                    git,
                    state,
                    &order[i],
                    &m.parent,
                    &m.parent_head,
                ) {
                    let ghost c = found.candidate@;
                    out.push(found.candidate);
                    assert(rebase_views(out@) =~= held.push(c));
                    assert(rebase_views(out@) =~= seq![first] + followers(
                        *git,
                        state@,
                        all.take(i as int),
                    ).push(c));
                }
            },
            Err(e) => {
                return Err(e);
            },
        }
        i += 1;
    }
    assert(all.take(order.len() as int) =~= all);
    Ok(out)
}

/// The branches for which `keep` holds, in order.
pub open spec fn names_where(
    s: Seq<BranchPreflight>,
    keep: spec_fn(PreflightView) -> bool,
) -> Seq<Seq<char>>
    decreases s.len(),
{
    if s.len() == 0 {
        Seq::empty()
    } else if keep(s.last()@) {
        names_where(s.drop_last(), keep).push(s.last().branch@)
    } else {
        names_where(s.drop_last(), keep)
    }
}

/// The branches whose rebase would straighten out merge commits.
pub open spec fn merging(s: Seq<BranchPreflight>) -> Seq<Seq<char>> {
    names_where(s, |p: PreflightView| p.merge_commits > 0)
}

/// The branches whose base had to be derived from git.
pub open spec fn derived(s: Seq<BranchPreflight>) -> Seq<Seq<char>> {
    names_where(s, |p: PreflightView| p.derived_base)
}

/// The branches whose commits the destination already holds.
pub open spec fn applied(s: Seq<BranchPreflight>) -> Seq<Seq<char>> {
    names_where(s, |p: PreflightView| p.all_redundant())
}

/// Whether a preflight stops a rebase.
pub open spec fn blocks(force: bool, p: RebasePreflight) -> bool {
    merge_sum(p.branches@) > 0 && !force
}

/// The hint that goes with a preflight.
pub open spec fn hint_text(cmd: Seq<char>, blocked: bool) -> Seq<char> {
    if blocked {
        "Re-run `ez "@ + cmd + " --force` to linearize merge commits during rebase"@
    } else {
        ""@
    }
}

/// The receipt for a preflight.
pub open spec fn preflight_receipt(cmd: Seq<char>, force: bool, p: RebasePreflight) -> JsonView {
    let all = p.branches@;
    JsonView::Object(
        no_fields().insert("cmd"@, JsonView::Text(cmd)).insert(
            "action"@,
            JsonView::Text("rebase_preflight"@),
        ).insert(
            "status"@,
            JsonView::Text(
                if merge_sum(all) == 0 {
                    "ok"@
                } else if force {
                    "forced"@
                } else {
                    "blocked"@
                },
            ),
        ).insert("forced"@, JsonView::Bool(force)).insert(
            "branches_checked"@,
            JsonView::Number(all.len() as u64),
        ).insert("merge_commits"@, JsonView::Number(merge_sum(all) as u64)).insert(
            "merge_branches"@,
            text_list(merging(all)),
        ).insert("derived_bases"@, JsonView::Number(derived(all).len() as u64)).insert(
            "redundant_commits"@,
            JsonView::Number(redundant_sum(all) as u64),
        ).insert("all_redundant"@, text_list(applied(all))).insert(
            "hint"@,
            JsonView::Text(hint_text(cmd, blocks(force, p))),
        ),
    )
}

/// The sums and lists that a preflight reports.
struct Totals {
    merge_branches: Vec<String>,
    derived_bases: u64,
    redundant_commits: u64,
    all_redundant: Vec<String>,
}

fn totals(preflight: &RebasePreflight) -> (r: Totals)
    requires
        preflight.fits(),
    ensures
        views(r.merge_branches@) == merging(preflight.branches@),
        r.derived_bases == derived(preflight.branches@).len(),
        r.redundant_commits == redundant_sum(preflight.branches@),
        views(r.all_redundant@) == applied(preflight.branches@),
{
    let ghost all = preflight.branches@;
    let mut merge_branches: Vec<String> = Vec::new();
    let mut derived_bases: u64 = 0;
    let mut redundant_commits: u64 = 0;
    let mut all_redundant: Vec<String> = Vec::new();
    let mut i: usize = 0;
    proof {
        assert(all.take(0) =~= Seq::<BranchPreflight>::empty());
        assert(views(merge_branches@) =~= merging(all.take(0)));
        assert(views(all_redundant@) =~= applied(all.take(0)));
    }
    while i < preflight.branches.len()
        invariant
            i <= preflight.branches.len(),
            all == preflight.branches@,
            redundant_sum(all) <= u64::MAX,
            views(merge_branches@) == merging(all.take(i as int)),
            derived_bases == derived(all.take(i as int)).len(),
            derived_bases <= i,
            redundant_commits == redundant_sum(all.take(i as int)),
            views(all_redundant@) == applied(all.take(i as int)),
        decreases preflight.branches.len() - i,
    {
        let b: &BranchPreflight = &preflight.branches[i];
        let ghost merges = views(merge_branches@);
        let ghost held = views(all_redundant@);
        proof {
            assert(all.take(i + 1).drop_last() =~= all.take(i as int));
            assert(all.take(i + 1).last() == b);
            lemma_sums_grow(all, i + 1);
        }
        if b.merge_commits > 0 {
            merge_branches.push(b.branch.clone());
            assert(views(merge_branches@) =~= merges.push(b.branch@));
        }
        if b.derived_base {
            derived_bases = derived_bases + 1;
        }
        redundant_commits = redundant_commits + b.cherry.redundant;
        if b.all_redundant() {
            all_redundant.push(b.branch.clone());
            assert(views(all_redundant@) =~= held.push(b.branch@));
        }
        i += 1;
    }
    assert(all.take(preflight.branches.len() as int) =~= all);
    Totals { merge_branches, derived_bases, redundant_commits, all_redundant }
}

/// Makes the receipt for a preflight, and stops the rebase if it would straighten out merge
/// commits that nobody forced.
pub fn enforce(cmd: &str, force: bool, preflight: &RebasePreflight) -> (r: (
    Json,
    Result<(), EzError>,
))
    requires
        preflight.fits(),
    ensures
        r.0@ == preflight_receipt(cmd@, force, *preflight),
        r.1 is Ok == !blocks(force, *preflight),
        r.1 matches Err(e) ==> e@ == ErrorView::UserMessage(
            "`ez "@ + cmd@ + "` blocked by merge commits in "@ + decimal(
                merging(preflight.branches@).len(),
            ) + " branch(es)"@,
        ),
{
    let merge_commits: u64 = preflight.merge_commits();
    let sums: Totals = totals(preflight);
    let blocked: bool = merge_commits > 0 && !force;
    let status: &str = if merge_commits == 0 {
        "ok"
    } else if force {
        "forced"
    } else {
        "blocked"
    };
    let hint: String = if blocked {
        String::from_str("Re-run `ez ").concat(cmd).concat(
            " --force` to linearize merge commits during rebase",
        )
    } else {
        String::from_str("")
    };
    let receipt: Json = JsonObject::new().field("cmd", Json::text(cmd)).field(
        "action",
        Json::text("rebase_preflight"),
    ).field("status", Json::text(status)).field("forced", Json::Bool(force)).field(
        "branches_checked",
        Json::count(preflight.branches.len()),
    ).field("merge_commits", Json::Number(merge_commits)).field(
        "merge_branches",
        Json::texts(&sums.merge_branches),
    ).field("derived_bases", Json::Number(sums.derived_bases)).field(
        "redundant_commits",
        Json::Number(sums.redundant_commits),
    ).field("all_redundant", Json::texts(&sums.all_redundant)).field(
        "hint",
        Json::Text(hint),
    ).done();
    if blocked {
        let text: String = String::from_str("`ez ").concat(cmd).concat(
            "` blocked by merge commits in ",
        ).concat(&count(sums.merge_branches.len())).concat(" branch(es)");
        proof {
            assert(sums.merge_branches@.len() == views(sums.merge_branches@).len());
        }
        return (receipt, Err(EzError::UserMessage(text)));
    }
    (receipt, Ok(()))
}

/// A preflight that was carried out: what it found, its receipt, and whether it stops the rebase.
#[derive(Debug)]
pub struct PreflightRun {
    pub preflight: RebasePreflight,
    pub receipt: Json,
    pub verdict: Result<(), EzError>,
}

/// Inspects all candidates and enforces the preflight on what was found. Fails without a receipt
/// where a fact could not be had, or where the counts are too large to be summed.
pub fn run(
    cmd: &str,
    force: bool,
    candidates: &Vec<RebaseCandidate>,
    facts: &Vec<CandidateFacts>,
) -> (r: Result<PreflightRun, EzError>)
    requires
        facts.len() == candidates.len(),
    ensures
        match r {
            Ok(done) => {
                &&& all_inspected(candidates@, facts@, done.preflight)
                &&& done.preflight.fits()
                &&& done.receipt@ == preflight_receipt(cmd@, force, done.preflight)
                &&& done.verdict is Ok == !blocks(force, done.preflight)
                &&& done.verdict matches Err(e) ==> e@ == ErrorView::UserMessage(
                    "`ez "@ + cmd@ + "` blocked by merge commits in "@ + decimal(
                        merging(done.preflight.branches@).len(),
                    ) + " branch(es)"@,
                )
            },
            Err(e) => {
                ||| (e@ matches ErrorView::Other(text) && first_fault(facts@, text))
                ||| (e@ == ErrorView::Other("too many commits to count"@) && exists|
                    p: RebasePreflight,
                | #[trigger]
                    all_inspected(candidates@, facts@, p) && !p.fits())
            },
        },
{
    let preflight: RebasePreflight = match inspect_candidates(candidates, facts) {
        Ok(p) => p,
        Err(e) => {
            return Err(e);
        },
    };
    if !preflight.counts_fit() {
        assert(all_inspected(candidates@, facts@, preflight) && !preflight.fits());
        return Err(EzError::Other(String::from_str("too many commits to count")));
    }
    let (receipt, verdict) = enforce(cmd, force, &preflight);
    Ok(PreflightRun { preflight, receipt, verdict })
}

/// A move replays exactly the branch's own commits: where the recorded parent commit is the tip of
/// the recorded parent and the branch holds it, the branch is replayed from there, whatever the
/// trunk and the destination are.
pub proof fn law_move_replays_own_commits(
    g: GitView,
    s: StackView,
    current: Seq<char>,
    destination: Seq<char>,
)
    requires
        s.managed(current),
        s.branches[current].parent_head.len() > 0,
        g.tip(s.branches[current].parent) matches Some(tip) && trimmed(tip)
            == s.branches[current].parent_head,
        g.ancestor(s.branches[current].parent_head, current),
        g.base(s.branches[current].parent, current) matches Some(base) ==> trimmed(base)
            == s.branches[current].parent_head || trimmed(base).len() == 0 || !g.ancestor(
            s.branches[current].parent_head,
            trimmed(base),
        ),
    ensures
        ({
            let c = moved_candidate(g, s, current, destination);
            &&& c.branch == current
            &&& c.destination_tip == destination
            &&& c.old_base == s.branches[current].parent_head
            &&& !c.derived_base
        }),
{
    crate::cmd::restack::law_recorded_base_is_kept(
        g,
        current,
        s.branches[current].parent,
        s.branches[current].parent_head,
    );
}

/// The destination of a move decides where the branch goes, and nothing of what is replayed; nor
/// does the trunk.
pub proof fn law_destination_does_not_decide_what_is_replayed(
    g: GitView,
    s: StackView,
    t: StackView,
    current: Seq<char>,
    one: Seq<char>,
    other: Seq<char>,
)
    requires
        s.managed(current),
        t.managed(current),
        s.branches[current] == t.branches[current],
    ensures
        moved_candidate(g, s, current, one).old_base == moved_candidate(
            g,
            t,
            current,
            other,
        ).old_base,
        moved_candidate(g, s, current, one).derived_base == moved_candidate(
            g,
            t,
            current,
            other,
        ).derived_base,
        moved_candidate(g, s, current, one).destination_tip == one,
        moved_candidate(g, s, current, one).branch == current,
{
}

/// A move replays what a restack onto the recorded parent would replay.
pub proof fn law_move_replays_what_a_restack_would(
    g: GitView,
    s: StackView,
    current: Seq<char>,
    destination: Seq<char>,
)
    requires
        s.managed(current),
        g.has_branch(current),
        g.tip(s.branches[current].parent) is Some,
    ensures
        resolved(
            g,
            s,
            current,
            s.branches[current].parent,
            s.branches[current].parent_head,
        ) matches Some(r) && r.candidate.old_base == moved_candidate(
            g,
            s,
            current,
            destination,
        ).old_base && r.candidate.destination_tip == g.tip(s.branches[current].parent)->0
            && r.candidate.branch == current && r.parent == s.branches[current].parent
            && r.initially_stale == (g.tip(s.branches[current].parent)->0
            != s.branches[current].parent_head),
{
}

/// A parent that git no longer knows is never the place where a branch goes: the candidate then
/// goes onto the tip of another branch that git knows.
pub proof fn law_candidate_goes_onto_a_known_tip(
    g: GitView,
    s: StackView,
    branch: Seq<char>,
    parent: Seq<char>,
    recorded: Seq<char>,
)
    ensures
        resolved(g, s, branch, parent, recorded) matches Some(r) ==> {
            &&& g.has_branch(branch)
            &&& r.candidate.branch == branch
            &&& g.tip(r.parent) == Some(r.candidate.destination_tip)
            &&& g.tip(parent) is Some ==> r.parent == parent
            &&& g.tip(parent) is None ==> r.initially_stale && r.candidate.derived_base
        },
{
}

/// The counts of a preflight are the sums over its branches; none is counted exactly where no
/// branch has one.
pub proof fn law_counts_are_sums(s: Seq<BranchPreflight>, p: BranchPreflight)
    ensures
        merge_sum(s.push(p)) == merge_sum(s) + p.merge_commits,
        redundant_sum(s.push(p)) == redundant_sum(s) + p.cherry.redundant,
        merge_sum(s) == 0 <==> forall|i: int|
            0 <= i < s.len() ==> (#[trigger] s[i]).merge_commits == 0,
        redundant_sum(s) == 0 <==> forall|i: int|
            0 <= i < s.len() ==> (#[trigger] s[i]).cherry.redundant == 0,
    decreases s.len(),
{
    assert(s.push(p).drop_last() =~= s);
    if s.len() > 0 {
        let low = s.drop_last();
        law_counts_are_sums(low, s.last());
        assert(low.push(s.last()) =~= s);
        assert(s[s.len() - 1] == s.last());
        assert forall|i: int| 0 <= i < low.len() implies #[trigger] low[i] == s[i] by {}
        if merge_sum(s) == 0 {
            assert forall|i: int| 0 <= i < s.len() implies (#[trigger] s[i]).merge_commits == 0 by {
                if i < low.len() {
                    assert(low[i] == s[i]);
                }
            }
        }
        if redundant_sum(s) == 0 {
            assert forall|i: int| 0 <= i < s.len() implies (#[trigger] s[i]).cherry.redundant
                == 0 by {
                if i < low.len() {
                    assert(low[i] == s[i]);
                }
            }
        }
    }
}

/// A listing is counted line by line, each by how it begins.
pub proof fn law_lines_are_counted_by_their_mark(
    s: Seq<Seq<char>>,
    line: Seq<char>,
    mark: Seq<char>,
    rest: Seq<char>,
)
    ensures
        lines_with(s.push(mark + rest), mark) == lines_with(s, mark) + 1,
        line.len() < mark.len() || line.take(mark.len() as int) != mark ==> lines_with(
            s.push(line),
            mark,
        ) == lines_with(s, mark),
        lines_with(Seq::<Seq<char>>::empty(), mark) == 0,
{
    assert(s.push(mark + rest).drop_last() =~= s);
    assert(s.push(line).drop_last() =~= s);
    assert((mark + rest).take(mark.len() as int) =~= mark);
}

/// The branches named with merge commits, with a derived base, or as applied already are exactly
/// those inspected of which that holds.
pub proof fn law_inspected_branches_are_named(s: Seq<BranchPreflight>, b: Seq<char>)
    ensures
        merging(s).contains(b) <==> exists|i: int|
            0 <= i < s.len() && (#[trigger] s[i]).branch@ == b && s[i].merge_commits > 0,
        derived(s).contains(b) <==> exists|i: int|
            0 <= i < s.len() && (#[trigger] s[i]).branch@ == b && s[i].derived_base,
        applied(s).contains(b) <==> exists|i: int|
            0 <= i < s.len() && (#[trigger] s[i]).branch@ == b && s[i].merge_commits == 0
                && s[i].cherry.unique == 0 && s[i].cherry.redundant > 0,
{
    lemma_names_where(s, |p: PreflightView| p.merge_commits > 0, b);
    lemma_names_where(s, |p: PreflightView| p.derived_base, b);
    lemma_names_where(s, |p: PreflightView| p.all_redundant(), b);
    if merging(s).contains(b) {
        let i = choose|i: int|
            0 <= i < s.len() && (#[trigger] s[i]).branch@ == b && s[i]@.merge_commits > 0;
        assert(s[i].merge_commits > 0);
    }
    if exists|i: int| 0 <= i < s.len() && (#[trigger] s[i]).branch@ == b && s[i].merge_commits > 0 {
        let i = choose|i: int|
            0 <= i < s.len() && (#[trigger] s[i]).branch@ == b && s[i].merge_commits > 0;
        assert(s[i]@.merge_commits > 0);
    }
    if applied(s).contains(b) {
        let i = choose|i: int|
            0 <= i < s.len() && (#[trigger] s[i]).branch@ == b && s[i]@.all_redundant();
        assert(s[i].merge_commits == 0);
    }
    if exists|i: int|
        0 <= i < s.len() && (#[trigger] s[i]).branch@ == b && s[i].merge_commits == 0
            && s[i].cherry.unique == 0 && s[i].cherry.redundant > 0 {
        let i = choose|i: int|
            0 <= i < s.len() && (#[trigger] s[i]).branch@ == b && s[i].merge_commits == 0
                && s[i].cherry.unique == 0 && s[i].cherry.redundant > 0;
        assert(s[i]@.all_redundant());
    }
}

proof fn lemma_names_where(
    s: Seq<BranchPreflight>,
    keep: spec_fn(PreflightView) -> bool,
    b: Seq<char>,
)
    ensures
        names_where(s, keep).contains(b) <==> exists|i: int|
            0 <= i < s.len() && (#[trigger] s[i]).branch@ == b && keep(s[i]@),
    decreases s.len(),
{
    if s.len() > 0 {
        let low = s.drop_last();
        lemma_names_where(low, keep, b);
        vstd::seq_lib::lemma_seq_contains_after_push(names_where(low, keep), s.last().branch@, b);
        assert(s[s.len() - 1] == s.last());
        if exists|i: int| 0 <= i < low.len() && (#[trigger] low[i]).branch@ == b && keep(low[i]@) {
            let i = choose|i: int|
                0 <= i < low.len() && (#[trigger] low[i]).branch@ == b && keep(low[i]@);
            assert(s[i] == low[i]);
        }
        if exists|i: int| 0 <= i < s.len() && (#[trigger] s[i]).branch@ == b && keep(s[i]@) {
            let i = choose|i: int|
                0 <= i < s.len() && (#[trigger] s[i]).branch@ == b && keep(s[i]@);
            if i < low.len() {
                assert(low[i] == s[i]);
            }
        }
    }
}

/// Only merge commits hold a rebase up, and never one that is forced.
pub proof fn law_only_merge_commits_hold_up(force: bool, p: RebasePreflight)
    ensures
        blocks(force, p) <==> !force && exists|i: int|
            0 <= i < p.branches@.len() && (#[trigger] p.branches@[i]).merge_commits > 0,
{
    let s = p.branches@;
    if s.len() > 0 {
        law_counts_are_sums(s, s.last());
    }
}

/// An inspection is of the candidate's own branch, and needs every fact; the first that is missing
/// is told.
pub proof fn law_inspection_needs_every_fact(c: RebaseView, f: CandidateFacts, p: PreflightView)
    ensures
        facts_fault(f) is None <==> f.branch_tip is Ok && f.merge_commits is Ok && f.cherry is Ok,
        inspected(c, f, p) ==> facts_fault(f) is None,
        inspected(c, f, p) ==> p.branch == c.branch && p.derived_base == c.derived_base
            && f.merge_commits->Ok_0 == p.merge_commits && f.branch_tip->Ok_0@ == p.branch_tip,
        f.branch_tip is Err ==> facts_fault(f) == Some(f.branch_tip->Err_0@),
        p.all_redundant() <==> p.cherry.unique == 0 && p.cherry.redundant > 0 && p.merge_commits
            == 0,
{
}

/// A branch whose parent stands at another commit than recorded is replayed onto that parent's
/// tip; so is one whose parent is moved before it. A branch that is neither is left out, and so is
/// one that is not recorded or that git does not have.
pub proof fn law_restack_plans_what_is_stale(
    g: GitView,
    s: StackView,
    order: Seq<Seq<char>>,
    b: Seq<char>,
)
    ensures
        ({
            let (moving, found) = restack_plan(g, s, order);
            let (moving_after, found_after) = restack_plan(g, s, order.push(b));
            let parent = s.branches[b].parent;
            let known = s.branches.contains_key(b) && g.has_branch(b);
            let stale = g.tip(parent) != Some(s.branches[b].parent_head);
            &&& !known ==> moving_after == moving && found_after == found
            &&& known && g.tip(parent) is Some && (stale || moving.contains(parent)) ==> {
                &&& found_after.len() == found.len() + 1
                &&& found_after.drop_last() == found
                &&& found_after.last().branch == b
                &&& Some(found_after.last().destination_tip) == g.tip(parent)
            }
            &&& known && g.tip(parent) is Some && moving.contains(parent) ==> moving_after
                == moving.push(b)
            &&& known && g.tip(parent) is Some && stale && found_after.last().old_base != g.tip(
                parent,
            )->0 ==> moving_after == moving.push(b)
            &&& known && g.tip(parent) is Some && !stale && !moving.contains(parent)
                ==> moving_after == moving && found_after == found
        }),
{
    assert(order.push(b).drop_last() =~= order);
    let found = restack_plan(g, s, order).1;
    let r = resolved(g, s, b, s.branches[b].parent, s.branches[b].parent_head);
    if r is Some {
        assert(found.push(r->0.candidate).drop_last() =~= found);
    }
}

/// Every branch of the order that git has and whose parent's tip is known follows a move, onto
/// that tip.
pub proof fn law_descendants_follow_a_move(
    g: GitView,
    s: StackView,
    order: Seq<Seq<char>>,
    b: Seq<char>,
)
    requires
        s.branches.contains_key(b),
    ensures
        !g.has_branch(b) ==> followers(g, s, order.push(b)) == followers(g, s, order),
        g.has_branch(b) && g.tip(s.branches[b].parent) is Some ==> ({
            let after = followers(g, s, order.push(b));
            &&& after.len() == followers(g, s, order).len() + 1
            &&& after.drop_last() == followers(g, s, order)
            &&& after.last().branch == b
            &&& Some(after.last().destination_tip) == g.tip(s.branches[b].parent)
        }),
        followers(g, s, Seq::<Seq<char>>::empty()).len() == 0,
{
    assert(order.push(b).drop_last() =~= order);
    let r = resolved(g, s, b, s.branches[b].parent, s.branches[b].parent_head);
    if r is Some {
        assert(followers(g, s, order).push(r->0.candidate).drop_last() =~= followers(g, s, order));
    }
}

/// A receipt of a preflight tells whether merge commits hold the rebase up, whether it is forced,
/// and the counts.
pub proof fn law_preflight_receipt_tells_the_verdict(cmd: Seq<char>, force: bool, p: RebasePreflight)
    ensures
        preflight_receipt(cmd, force, p) matches JsonView::Object(m) && {
            &&& m["cmd"@] == JsonView::Text(cmd)
            &&& merge_sum(p.branches@) == 0 ==> m["status"@] == JsonView::Text("ok"@)
            &&& merge_sum(p.branches@) > 0 && force ==> m["status"@] == JsonView::Text("forced"@)
            &&& merge_sum(p.branches@) > 0 && !force ==> m["status"@] == JsonView::Text("blocked"@)
            &&& m["forced"@] == JsonView::Bool(force)
            &&& m["branches_checked"@] == JsonView::Number(p.branches@.len() as u64)
            &&& m["merge_commits"@] == JsonView::Number(merge_sum(p.branches@) as u64)
            &&& m["merge_branches"@] == text_list(merging(p.branches@))
            &&& m["derived_bases"@] == JsonView::Number(derived(p.branches@).len() as u64)
            &&& m["redundant_commits"@] == JsonView::Number(redundant_sum(p.branches@) as u64)
            &&& m["all_redundant"@] == text_list(applied(p.branches@))
            &&& merge_sum(p.branches@) == 0 || force ==> m["hint"@] == JsonView::Text(""@)
        },
{
    reveal_strlit("cmd");
    reveal_strlit("action");
    reveal_strlit("status");
    reveal_strlit("forced");
    reveal_strlit("branches_checked");
    reveal_strlit("merge_commits");
    reveal_strlit("merge_branches");
    reveal_strlit("derived_bases");
    reveal_strlit("redundant_commits");
    reveal_strlit("all_redundant");
    reveal_strlit("hint");
    assert("cmd"@.len() == 3);
    assert("action"@.len() == 6);
    assert("status"@.len() == 6);
    assert("forced"@.len() == 6);
    assert("branches_checked"@.len() == 16);
    assert("merge_commits"@.len() == 13);
    assert("merge_branches"@.len() == 14);
    assert("derived_bases"@.len() == 13);
    assert("redundant_commits"@.len() == 17);
    assert("all_redundant"@.len() == 13);
    assert("hint"@.len() == 4);
    assert("action"@[0] == 'a');
    assert("status"@[0] == 's');
    assert("forced"@[0] == 'f');
    assert("merge_commits"@[0] == 'm');
    assert("derived_bases"@[0] == 'd');
    assert("all_redundant"@[0] == 'a');
}

} // verus!
