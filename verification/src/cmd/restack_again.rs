//! What a restack leaves in git, and what another one finds there.

use crate::cmd::restack::{
    fresh_restack, law_restack_keeps_order, leads_to, lemma_on, lemma_step_bases, RestackPhase,
    RestackReply, RestackView,
};
use crate::git::GitView;
use crate::stack::{breadth_first, laid_out, StackView};
use vstd::prelude::*;

verus! {

/// Whether git gives the same tips and branches in both.
pub open spec fn agrees(g: GitView, h: GitView) -> bool {
    &&& forall|n: Seq<char>| #[trigger] h.tip(n) == g.tip(n)
    &&& forall|b: Seq<char>| #[trigger] h.has_branch(b) == g.has_branch(b)
}

/// Whether git gives the same tips and branches in both, except for the tip of `branch`.
pub open spec fn agrees_but(g: GitView, h: GitView, branch: Seq<char>) -> bool {
    &&& forall|n: Seq<char>| n != branch ==> #[trigger] h.tip(n) == g.tip(n)
    &&& forall|b: Seq<char>| #[trigger] h.has_branch(b) == g.has_branch(b)
}

/// Whether a branch, if it is recorded and git has it, is recorded on the tip of its parent.
pub open spec fn on_tip(s: StackView, g: GitView, b: Seq<char>) -> bool {
    s.managed(b) && g.has_branch(b) ==> g.tip(s.branches[b].parent) == Some(
        s.branches[b].parent_head,
    )
}

/// Whether every branch of `order` that is recorded and that git has is recorded on the tip of
/// its parent.
pub open spec fn settled(s: StackView, g: GitView, order: Seq<Seq<char>>) -> bool {
    forall|j: int| 0 <= j < order.len() ==> on_tip(s, g, #[trigger] order[j])
}

/// Whether every reply tells of a git that gives the tips and branches of `g`.
pub open spec fn all_observe(replies: Seq<RestackReply>, g: GitView) -> bool {
    forall|i: int|
        0 <= i < replies.len() ==> (#[trigger] replies[i] matches RestackReply::Observed {
            git,
            ..
        } && agrees(g, git))
}

/// Where every branch stands on the tip of its parent, a restack only looks: it asks for nothing
/// but what git says, moves no branch, leaves none alone and records nothing. One look for each
/// branch brings it to its end.
pub proof fn law_settled_restack_changes_nothing(
    v: RestackView,
    g: GitView,
    replies: Seq<RestackReply>,
    w: RestackView,
)
    requires
        v.wf(),
        v.phase is Observe || v.phase is Finished,
        settled(v.state, g, v.order),
        all_observe(replies, g),
        leads_to(v, replies, w),
    ensures
        w.phase is Observe || w.phase is Finished,
        w == (RestackView { phase: w.phase, at: w.at, ..v }),
        w.wf(),
        w.phase is Finished || w.at >= v.at + replies.len(),
        replies.len() >= v.order.len() ==> w.phase is Finished,
    decreases replies.len(),
{
    if replies.len() > 0 {
        let u = choose|u: RestackView| #[trigger]
            u.steps(replies.last(), w) && leads_to(v, replies.drop_last(), u);
        assert forall|i: int| 0 <= i < replies.drop_last().len() implies (
        #[trigger] replies.drop_last()[i] matches RestackReply::Observed { git, .. } && agrees(
            g,
            git,
        )) by {
            assert(replies.drop_last()[i] == replies[i]);
        }
        law_settled_restack_changes_nothing(v, g, replies.drop_last(), u);
        law_restack_keeps_order(u, replies.last(), w);
        assert(replies.last() == replies[replies.len() - 1]);
        if u.phase is Observe {
            assert(on_tip(v.state, g, v.order[u.at]));
            lemma_on(u, u.at + 1);
            assert(u =~= (RestackView { state: u.state, ..u }));
        }
    }
}

/// What one reply did to a restack and to git: looking changes nothing in git, and all other work
/// at most the tip of the branch in work.
pub open spec fn step_in(
    v: RestackView,
    reply: RestackReply,
    w: RestackView,
    g: GitView,
    h: GitView,
) -> bool {
    &&& v.steps(reply, w)
    &&& match reply {
        RestackReply::Observed { git, .. } => agrees(g, git) && agrees(g, h),
        _ => if v.phase is Finished {
            agrees(g, h)
        } else {
            agrees_but(g, h, v.branch())
        },
    }
}

/// Whether `replies` took a restack through the states of `vs` while git went through `gs`.
pub open spec fn history(
    vs: Seq<RestackView>,
    replies: Seq<RestackReply>,
    gs: Seq<GitView>,
) -> bool {
    &&& vs.len() == replies.len() + 1
    &&& gs.len() == vs.len()
    &&& forall|i: int|
        #![trigger replies[i]]
        0 <= i < replies.len() ==> step_in(vs[i], replies[i], vs[i + 1], gs[i], gs[i + 1])
}

/// Whether `order` lists no branch twice, and every recorded parent before its children.
pub open spec fn parents_first(s: StackView, order: Seq<Seq<char>>) -> bool {
    &&& order.no_duplicates()
    &&& forall|i: int, j: int|
        #![trigger order[i], order[j]]
        0 <= i < order.len() && 0 <= j < order.len() && s.managed(order[i])
            && s.branches[order[i]].parent == order[j] ==> j < i
}

/// Whether the parent of branch `j` of the order is settled for the rest of the restack.
spec fn decided(v: RestackView, j: int) -> bool {
    0 <= j < v.order.len() && (j < v.at || (j == v.at && !(v.phase is Observe)))
}

/// What holds throughout a restack that leaves no branch alone.
spec fn kept(v: RestackView, g: GitView) -> bool {
    &&& v.wf()
    &&& forall|j: int| 0 <= j < v.at ==> on_tip(v.state, g, #[trigger] v.order[j])
    &&& (v.phase is Inspect || v.phase is Align || v.phase is Rebase) ==> {
        &&& v.state.branches[v.branch()].parent == v.parent
        &&& g.tip(v.parent) == Some(v.candidate.destination_tip)
    }
    &&& v.phase is Recover ==> v.failures.len() > 0
}

proof fn lemma_step_decided(v: RestackView, reply: RestackReply, w: RestackView, j: int)
    requires
        v.wf(),
        v.steps(reply, w),
        v.order.no_duplicates(),
        decided(v, j),
    ensures
        w.wf(),
        w.order == v.order,
        decided(w, j),
        w.state.managed(v.order[j]) == v.state.managed(v.order[j]),
        v.state.managed(v.order[j]) ==> w.state.branches[v.order[j]].parent
            == v.state.branches[v.order[j]].parent,
{
    law_restack_keeps_order(v, reply, w);
    lemma_step_bases(v, reply, w);
    assert(v.state.branches.dom().contains(v.order[j]) == w.state.branches.dom().contains(
        v.order[j],
    ));
    if !(v.phase is Finished) {
        lemma_on_all(v.at + 1);
        if j < v.at {
            assert(v.order[j] != v.order[v.at]);
        }
    }
}

/// Going on keeps everything but the branch in work.
proof fn lemma_on_all(i: int)
    ensures
        forall|v: RestackView|
            0 <= i <= v.order.len() ==> {
                let w = #[trigger] v.on(i);
                &&& w == (RestackView { phase: w.phase, at: w.at, ..v })
                &&& i <= w.at <= v.order.len()
                &&& (w.phase is Finished && w.at == v.order.len()) || w.phase is Observe
                &&& forall|j: int| i <= j < w.at ==> !v.state.managed(#[trigger] v.order[j])
            },
{
    assert forall|v: RestackView| 0 <= i <= v.order.len() implies {
        let w = #[trigger] v.on(i);
        &&& w == (RestackView { phase: w.phase, at: w.at, ..v })
        &&& i <= w.at <= v.order.len()
        &&& (w.phase is Finished && w.at == v.order.len()) || w.phase is Observe
        &&& forall|j: int| i <= j < w.at ==> !v.state.managed(#[trigger] v.order[j])
    } by {
        lemma_on(v, i);
    }
}

/// A reply that leaves no branch alone keeps what holds, where no branch that is done stands on
/// the branch in work.
proof fn lemma_step_kept(
    v: RestackView,
    reply: RestackReply,
    w: RestackView,
    g: GitView,
    h: GitView,
)
    requires
        step_in(v, reply, w, g, h),
        kept(v, g),
        v.order.no_duplicates(),
        w.failures.len() == 0,
        !(v.phase is Finished) ==> forall|j: int|
            decided(v, j) && v.state.managed(v.order[j]) ==> (
            #[trigger] v.state.branches[v.order[j]]).parent != v.branch(),
    ensures
        kept(w, h),
{
    law_restack_keeps_order(v, reply, w);
    lemma_on_all(v.at + 1);
    if !(v.phase is Finished) {
        let b = v.branch();
        assert forall|j: int| 0 <= j < w.at implies on_tip(w.state, h, #[trigger] v.order[j]) by {
            let x = v.order[j];
            if j < v.at {
                assert(on_tip(v.state, g, x));
                assert(x != b);
                assert(decided(v, j));
                assert(v.state.managed(x) ==> v.state.branches[x].parent != b);
                assert(w.state.managed(x) == v.state.managed(x));
                assert(v.state.managed(x) ==> w.state.branches[x] == v.state.branches[x]);
            } else if j == v.at {
                assert(v.phase is Observe || decided(v, j));
                assert(!(v.phase is Observe) ==> v.state.branches[b].parent != b);
            } else {
                assert(w.state.managed(x) ==> v.state.managed(x));
            }
        }
        if !(v.phase is Observe) {
            assert(decided(v, v.at));
            assert(v.state.branches[v.order[v.at]].parent != b);
        }
    }
}

/// Failures are never forgotten.
proof fn lemma_failures_stay(
    vs: Seq<RestackView>,
    replies: Seq<RestackReply>,
    gs: Seq<GitView>,
    k: int,
)
    requires
        history(vs, replies, gs),
        vs[0].wf(),
        0 <= k < vs.len(),
        vs.last().failures.len() == 0,
    ensures
        vs[k].failures.len() == 0,
        vs[k].wf(),
        vs[k].order == vs[0].order,
    decreases vs.len() - k,
{
    lemma_all_wf(vs, replies, gs, k);
    if k + 1 < vs.len() {
        lemma_failures_stay(vs, replies, gs, k + 1);
        assert(step_in(vs[k], replies[k], vs[k + 1], gs[k], gs[k + 1]));
        lemma_on_all(vs[k].at + 1);
    }
}

proof fn lemma_all_wf(
    vs: Seq<RestackView>,
    replies: Seq<RestackReply>,
    gs: Seq<GitView>,
    k: int,
)
    requires
        history(vs, replies, gs),
        vs[0].wf(),
        0 <= k < vs.len(),
    ensures
        vs[k].wf(),
        vs[k].order == vs[0].order,
    decreases k,
{
    if k > 0 {
        lemma_all_wf(vs, replies, gs, k - 1);
        assert(step_in(vs[k - 1], replies[k - 1], vs[k - 1 + 1], gs[k - 1], gs[k - 1 + 1]));
        law_restack_keeps_order(vs[k - 1], replies[k - 1], vs[k]);
        lemma_step_bases(vs[k - 1], replies[k - 1], vs[k]);
    }
}

/// The parent of a branch that is done is the one that is recorded in the end.
proof fn lemma_parent_stays(
    vs: Seq<RestackView>,
    replies: Seq<RestackReply>,
    gs: Seq<GitView>,
    k: int,
    j: int,
)
    requires
        history(vs, replies, gs),
        vs[0].wf(),
        vs[0].order.no_duplicates(),
        0 <= k < vs.len(),
        decided(vs[k], j),
    ensures
        vs.last().state.managed(vs[0].order[j]) == vs[k].state.managed(vs[0].order[j]),
        vs[k].state.managed(vs[0].order[j]) ==> vs.last().state.branches[vs[0].order[j]].parent
            == vs[k].state.branches[vs[0].order[j]].parent,
    decreases vs.len() - k,
{
    lemma_all_wf(vs, replies, gs, k);
    if k + 1 < vs.len() {
        assert(step_in(vs[k], replies[k], vs[k + 1], gs[k], gs[k + 1]));
        lemma_step_decided(vs[k], replies[k], vs[k + 1], j);
        lemma_parent_stays(vs, replies, gs, k + 1, j);
    }
}

proof fn lemma_all_kept(
    vs: Seq<RestackView>,
    replies: Seq<RestackReply>,
    gs: Seq<GitView>,
    k: int,
)
    requires
        history(vs, replies, gs),
        kept(vs[0], gs[0]),
        0 <= k < vs.len(),
        vs.last().failures.len() == 0,
        parents_first(vs.last().state, vs[0].order),
    ensures
        kept(vs[k], gs[k]),
    decreases k,
{
    if k > 0 {
        let v = vs[k - 1];
        lemma_all_kept(vs, replies, gs, k - 1);
        lemma_failures_stay(vs, replies, gs, k);
        lemma_all_wf(vs, replies, gs, k - 1);
        assert(step_in(vs[k - 1], replies[k - 1], vs[k - 1 + 1], gs[k - 1], gs[k - 1 + 1]));
        if !(v.phase is Finished) {
            assert forall|j: int| decided(v, j) && v.state.managed(v.order[j]) implies (
            #[trigger] v.state.branches[v.order[j]]).parent != v.branch() by {
                lemma_parent_stays(vs, replies, gs, k - 1, j);
                let order = vs[0].order;
                if v.state.branches[order[j]].parent == order[v.at] {
                    assert(vs.last().state.branches[order[j]].parent == order[v.at]);
                    assert(v.at < j);
                }
            }
        }
        lemma_step_kept(v, replies[k - 1], vs[k], gs[k - 1], gs[k]);
    }
}

/// A restack that ended without leaving a branch alone leaves every branch of its order, given
/// with parents first, recorded on the tip that its parent has in the end.
pub proof fn law_clean_restack_settles(
    state: StackView,
    order: Seq<Seq<char>>,
    cmd: Seq<char>,
    force: bool,
    vs: Seq<RestackView>,
    replies: Seq<RestackReply>,
    gs: Seq<GitView>,
)
    requires
        history(vs, replies, gs),
        vs[0] == fresh_restack(state, order, cmd, force),
        vs.last().phase is Finished,
        vs.last().failures.len() == 0,
        parents_first(vs.last().state, order),
    ensures
        settled(vs.last().state, gs.last(), order),
{
    lemma_fresh(state, order, cmd, force, gs[0]);
    lemma_all_kept(vs, replies, gs, vs.len() - 1);
    lemma_all_wf(vs, replies, gs, vs.len() - 1);
    lemma_finished_at_end(vs, replies, gs, vs.len() - 1);
}

proof fn lemma_finished_at_end(
    vs: Seq<RestackView>,
    replies: Seq<RestackReply>,
    gs: Seq<GitView>,
    k: int,
)
    requires
        history(vs, replies, gs),
        vs[0].wf(),
        vs[0].phase is Finished ==> vs[0].at == vs[0].order.len(),
        0 <= k < vs.len(),
        vs[k].phase is Finished,
    ensures
        vs[k].at == vs[k].order.len(),
    decreases k,
{
    if k > 0 {
        lemma_all_wf(vs, replies, gs, k - 1);
        assert(step_in(vs[k - 1], replies[k - 1], vs[k - 1 + 1], gs[k - 1], gs[k - 1 + 1]));
        let v = vs[k - 1];
        if v.phase is Finished {
            lemma_finished_at_end(vs, replies, gs, k - 1);
        } else {
            lemma_on_all(v.at + 1);
        }
    }
}

proof fn lemma_fresh(
    state: StackView,
    order: Seq<Seq<char>>,
    cmd: Seq<char>,
    force: bool,
    g: GitView,
)
    ensures
        ({
            let v = fresh_restack(state, order, cmd, force);
            &&& kept(v, g)
            &&& v.state == state
            &&& v.order == order
            &&& v.restacked == Seq::<Seq<char>>::empty()
            &&& v.failures.len() == 0
            &&& v.receipts.len() == 0
            &&& v.phase is Observe || v.phase is Finished
            &&& v.phase is Finished ==> v.at == order.len()
        }),
{
    let start = RestackView {
        state,
        order,
        cmd,
        force,
        phase: RestackPhase::Finished,
        at: 0,
        parent: Seq::empty(),
        candidate: crate::cmd::preflight::RebaseView {
            branch: Seq::empty(),
            destination_tip: Seq::empty(),
            old_base: Seq::empty(),
            derived_base: false,
        },
        before: Seq::empty(),
        branch_tip: Seq::empty(),
        redundant: 0,
        restacked: Seq::empty(),
        failures: Seq::empty(),
        receipts: Seq::empty(),
    };
    assert(fresh_restack(state, order, cmd, force) == start.on(0));
    lemma_on(start, 0);
}

/// The descendants of a branch that is not its own descendant, level by level, are listed with
/// parents first.
pub proof fn law_descendants_list_parents_first(
    s: StackView,
    root: Seq<char>,
    order: Seq<Seq<char>>,
)
    requires
        breadth_first(s.branches, root, order),
        !order.contains(root),
    ensures
        parents_first(s, order),
{
    let pos = choose|pos: Seq<int>| laid_out(s.branches, root, order, pos);
    assert forall|i: int, j: int|
        #![trigger order[i], order[j]]
        0 <= i < order.len() && 0 <= j < order.len() && s.managed(order[i])
            && s.branches[order[i]].parent == order[j] implies j < i by {
        assert(-1 <= pos[i] < i);
        assert(order.contains(order[j]));
    }
}

/// A cascade that left no branch alone, and found every recorded parent in git, leaves every
/// descendant of its root recorded on the current tip of its parent.
pub proof fn law_clean_cascade_settles(
    state: StackView,
    root: Seq<char>,
    order: Seq<Seq<char>>,
    cmd: Seq<char>,
    force: bool,
    vs: Seq<RestackView>,
    replies: Seq<RestackReply>,
    gs: Seq<GitView>,
)
    requires
        breadth_first(state.branches, root, order),
        !order.contains(root),
        history(vs, replies, gs),
        vs[0] == fresh_restack(state, order, cmd, force),
        vs.last().phase is Finished,
        vs.last().verdict() is Ok,
        forall|i: int|
            0 <= i < order.len() ==> vs.last().state.branches[#[trigger] order[i]].parent
                == state.branches[order[i]].parent,
    ensures
        settled(vs.last().state, gs.last(), order),
        vs.last().verdict() == Ok::<nat, crate::error::ErrorView>(vs.last().restacked.len()),
{
    let end = vs.last().state;
    let pos = choose|pos: Seq<int>| laid_out(state.branches, root, order, pos);
    assert forall|i: int, j: int|
        #![trigger order[i], order[j]]
        0 <= i < order.len() && 0 <= j < order.len() && end.managed(order[i])
            && end.branches[order[i]].parent == order[j] implies j < i by {
        assert(-1 <= pos[i] < i);
        assert(order.contains(order[j]));
    }
    law_clean_restack_settles(state, order, cmd, force, vs, replies, gs);
}

/// Once a restack ended without leaving a branch alone, and git has not changed since, restacking
/// the same branches again moves none, leaves none alone, and changes neither the record nor
/// git; it ends after one look at each branch.
pub proof fn law_second_restack_changes_nothing(
    state: StackView,
    order: Seq<Seq<char>>,
    cmd: Seq<char>,
    force: bool,
    vs: Seq<RestackView>,
    replies: Seq<RestackReply>,
    gs: Seq<GitView>,
    again_cmd: Seq<char>,
    again_force: bool,
    again: Seq<RestackReply>,
    w: RestackView,
)
    requires
        history(vs, replies, gs),
        vs[0] == fresh_restack(state, order, cmd, force),
        vs.last().phase is Finished,
        vs.last().failures.len() == 0,
        parents_first(vs.last().state, order),
        all_observe(again, gs.last()),
        leads_to(fresh_restack(vs.last().state, order, again_cmd, again_force), again, w),
    ensures
        w.state == vs.last().state,
        w.restacked.len() == 0,
        w.failures.len() == 0,
        w.receipts.len() == 0,
        w.phase is Observe || w.phase is Finished,
        again.len() >= order.len() ==> w.phase is Finished && w.verdict() == Ok::<
            nat,
            crate::error::ErrorView,
        >(0),
{
    law_clean_restack_settles(state, order, cmd, force, vs, replies, gs);
    lemma_fresh(vs.last().state, order, again_cmd, again_force, gs.last());
    law_settled_restack_changes_nothing(
        fresh_restack(vs.last().state, order, again_cmd, again_force),
        gs.last(),
        again,
        w,
    );
}

} // verus!
