//! Listing the branches of the stack.

use crate::cmd::sync::path_views;
use crate::name_map::NameMap;
use crate::stack::{topo, StackState, StackView};
use crate::text::{decimal, number, same, views};
use vstd::prelude::*;
use vstd::string::*;

verus! {

/// The mark of the current branch.
pub open spec fn marker(b: Seq<char>, current: Seq<char>) -> Seq<char> {
    if b == current {
        "* "@
    } else {
        "  "@
    }
}

/// The worktree of a branch after a space, or nothing.
pub open spec fn place(b: Seq<char>, worktrees: Map<Seq<char>, Seq<char>>) -> Seq<char> {
    if worktrees.contains_key(b) {
        " "@ + worktrees[b]
    } else {
        ""@
    }
}

/// The line of a branch.
pub open spec fn branch_line(
    s: StackView,
    current: Seq<char>,
    worktrees: Map<Seq<char>, Seq<char>>,
    b: Seq<char>,
) -> Seq<char> {
    marker(b, current) + b + (if s.managed(b) && s.branches[b].pr_number is Some {
        " #"@ + decimal(s.branches[b].pr_number->0 as nat)
    } else {
        ""@
    }) + place(b, worktrees)
}

/// The lines of the listing: the trunk, the branches on it, parents first, and the current branch
/// where it is neither.
pub open spec fn listing(
    s: StackView,
    current: Seq<char>,
    worktrees: Map<Seq<char>, Seq<char>>,
) -> Seq<Seq<char>> {
    let order = topo(s.branches, s.trunk);
    let lines = seq![marker(s.trunk, current) + s.trunk + " (trunk)"@ + place(s.trunk, worktrees)]
        + Seq::new(order.len(), |i: int| branch_line(s, current, worktrees, order[i]));
    if current != s.trunk && !s.managed(current) {
        lines.push("* "@ + current + " (not tracked by ez)"@ + place(current, worktrees))
    } else {
        lines
    }
}

fn mark(b: &str, current: &str) -> (r: String)
    ensures
        r@ == marker(b@, current@),
{
    if same(b, current) {
        String::from_str("* ")
    } else {
        String::from_str("  ")
    }
}

fn place_text(b: &str, worktrees: &NameMap<String>) -> (r: String)
    ensures
        r@ == place(b@, path_views(worktrees@)),
{
    match worktrees.get(b) {
        Some(p) => String::from_str(" ").concat(p),
        None => String::from_str(""),
    }
}

/// The lines of the listing.
pub fn run(state: &StackState, current: &str, worktrees: &NameMap<String>) -> (r: Vec<String>)
    ensures
        views(r@) == listing(state@, current@, path_views(worktrees@)),
{
    let ghost paths = path_views(worktrees@);
    let mut out: Vec<String> = Vec::new();
    let first: String = mark(&state.trunk, current).concat(&state.trunk).concat(" (trunk)").concat(
        &place_text(&state.trunk, worktrees),
    );
    let ghost head = first@;
    out.push(first);
    let order: Vec<String> = state.topo_order();
    let ghost names = views(order@);
    let mut i: usize = 0;
    assert(views(out@) =~= seq![head] + Seq::new(
        0,
        |j: int| branch_line(state@, current@, paths, names[j]),
    ));
    while i < order.len()
        invariant
            i <= order.len(),
            names == views(order@),
            paths == path_views(worktrees@),
            views(out@) == seq![head] + Seq::new(
                i as nat,
                |j: int| branch_line(state@, current@, paths, names[j]),
            ),
        decreases order.len() - i,
    {
        let ghost held = views(out@);
        let b: &String = &order[i];
        assert(names[i as int] == b@);
        let pr: String = match state.branches.get(b) {
            Some(meta) => match meta.pr_number {
                Some(n) => String::from_str(" #").concat(&number(n)),
                None => String::from_str(""),
            },
            None => String::from_str(""),
        };
        let line: String = mark(b, current).concat(b).concat(&pr).concat(
            &place_text(b, worktrees),
        );
        assert(line@ == branch_line(state@, current@, paths, b@));
        let ghost l = line@;
        out.push(line);
        proof {
            assert(views(out@) =~= held.push(l));
            assert(held.push(l) =~= seq![head] + Seq::new(
                (i + 1) as nat,
                |j: int| branch_line(state@, current@, paths, names[j]),
            ));
        }
        i += 1;
    }
    if !state.is_trunk(current) && !state.is_managed(current) {
        let ghost held = views(out@);
        let line: String = String::from_str("* ").concat(current).concat(
            " (not tracked by ez)",
        ).concat(&place_text(current, worktrees));
        let ghost l = line@;
        out.push(line);
        assert(views(out@) =~= held.push(l));
    }
    assert(Seq::new(names.len(), |j: int| branch_line(state@, current@, paths, names[j]))
        =~= Seq::new(
        topo(state@.branches, state@.trunk).len(),
        |j: int|
            branch_line(state@, current@, paths, topo(state@.branches, state@.trunk)[j]),
    ));
    out
}

/// A listing has the trunk first and one line for each branch above it, in their order; the
/// current branch, and no other, is marked; where it is not recorded it comes last.
pub proof fn law_listing_marks_the_current_branch(
    s: StackView,
    current: Seq<char>,
    worktrees: Map<Seq<char>, Seq<char>>,
    order: Seq<Seq<char>>,
    i: int,
)
    requires
        crate::stack::breadth_first(s.branches, s.trunk, order),
        0 <= i < order.len(),
    ensures
        ({
            let l = listing(s, current, worktrees);
            let known = current == s.trunk || s.branches.contains_key(current);
            &&& known ==> l.len() == order.len() + 1
            &&& !known ==> l.len() == order.len() + 2
            &&& l[0].take(2) == (if s.trunk == current {
                seq!['*', ' ']
            } else {
                seq![' ', ' ']
            })
            &&& l[0].subrange(2, 2 + s.trunk.len() as int) == s.trunk
            &&& l[i + 1].take(2) == (if order[i] == current {
                seq!['*', ' ']
            } else {
                seq![' ', ' ']
            })
            &&& l[i + 1].subrange(2, 2 + order[i].len() as int) == order[i]
            &&& !known ==> l.last().take(2) == seq!['*', ' '] && l.last().subrange(
                2,
                2 + current.len() as int,
            ) == current
        }),
{
    crate::stack::lemma_topo_unique(s.branches, s.trunk, order);
    reveal_strlit("* ");
    reveal_strlit("  ");
    reveal_strlit(" (trunk)");
    reveal_strlit(" (not tracked by ez)");
    assert("* "@ =~= seq!['*', ' ']);
    assert("  "@ =~= seq![' ', ' ']);
    let l = listing(s, current, worktrees);
    let b = order[i];
    assert(l[0] == marker(s.trunk, current) + s.trunk + " (trunk)"@ + place(s.trunk, worktrees));
    assert(l[i + 1] == branch_line(s, current, worktrees, b));
    assert(l[0].take(2) =~= marker(s.trunk, current));
    assert(l[0].subrange(2, 2 + s.trunk.len() as int) =~= s.trunk);
    assert(l[i + 1].take(2) =~= marker(b, current));
    assert(l[i + 1].subrange(2, 2 + b.len() as int) =~= b);
    if current != s.trunk && !s.branches.contains_key(current) {
        assert(l.last().take(2) =~= "* "@);
        assert(l.last().subrange(2, 2 + current.len() as int) =~= current);
    }
}

/// A branch with a pull request is shown with its number, and one with a worktree with its path
/// at the end.
pub proof fn law_line_tells_pull_request_and_worktree(
    s: StackView,
    current: Seq<char>,
    worktrees: Map<Seq<char>, Seq<char>>,
    b: Seq<char>,
)
    ensures
        s.branches.contains_key(b) && s.branches[b].pr_number is Some
            && !worktrees.contains_key(b) && b != current ==> branch_line(s, current, worktrees, b)
            == "  "@ + b + " #"@ + decimal(s.branches[b].pr_number->0 as nat),
        (!s.branches.contains_key(b) || s.branches[b].pr_number is None)
            && worktrees.contains_key(b) && b != current ==> branch_line(s, current, worktrees, b)
            == "  "@ + b + " "@ + worktrees[b],
{
    reveal_strlit("");
    let none = ""@;
    assert(none =~= Seq::<char>::empty());
    assert(branch_line(s, current, worktrees, b) =~= marker(b, current) + b + (if s.managed(b)
        && s.branches[b].pr_number is Some {
        " #"@ + decimal(s.branches[b].pr_number->0 as nat)
    } else {
        none
    }) + place(b, worktrees));
    if s.branches.contains_key(b) && s.branches[b].pr_number is Some && !worktrees.contains_key(b)
        && b != current {
        assert(branch_line(s, current, worktrees, b) =~= "  "@ + b + " #"@ + decimal(
            s.branches[b].pr_number->0 as nat,
        ));
    }
    if (!s.branches.contains_key(b) || s.branches[b].pr_number is None)
        && worktrees.contains_key(b) && b != current {
        assert(branch_line(s, current, worktrees, b) =~= "  "@ + b + " "@ + worktrees[b]);
    }
}

} // verus!
