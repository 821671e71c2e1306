//! Moving up and down the stack.

use crate::branch_map::is_child;
use crate::cmd::checkout::{find_by_pr, first_with_pr, none_with_pr};
use crate::cmd::sync::path_views;
use crate::error::{ErrorView, EzError};
use crate::name_map::NameMap;
use crate::names::{lemma_ranked, lemma_ranked_exists, ranked};
use crate::stack::{children, lowest, tops, StackState, StackView};
use crate::text::{
    base_name, contains, decimal, file_label, holds, join, joined, number, number_of, occurs,
    opt_view, parse_number, same, views,
};
use vstd::prelude::*;
use vstd::string::*;

verus! {

/// The mark for a branch's own worktree, if it has one under a `.worktrees` directory.
pub open spec fn picker_mark(worktrees: Map<Seq<char>, Seq<char>>, name: Seq<char>) -> Option<
    Seq<char>,
> {
    if worktrees.contains_key(name) && occurs(worktrees[name], "/.worktrees/"@) {
        Some("[wt: "@ + base_name(worktrees[name]) + "]"@)
    } else {
        None
    }
}

/// The mark for a branch's own worktree, if it has one under a `.worktrees` directory.
pub fn worktree_picker_suffix(wt_map: &NameMap<String>, name: &str) -> (r: Option<String>)
    ensures
        opt_view(r) == picker_mark(path_views(wt_map@), name@),
{
    match wt_map.get(name) {
        Some(path) => if contains(path, "/.worktrees/") {
            Some(String::from_str("[wt: ").concat(&file_label(path)).concat("]"))
        } else {
            None
        },
        None => None,
    }
}

/// A branch offered for selection: its name, its pull request and its worktree's mark.
#[derive(Debug)]
pub struct PickerLabel {
    pub branch: String,
    pub pr_number: Option<u64>,
    pub worktree: Option<String>,
}

/// What is offered for a branch.
pub open spec fn label_for(
    s: StackView,
    worktrees: Map<Seq<char>, Seq<char>>,
    b: Seq<char>,
    l: PickerLabel,
) -> bool {
    &&& l.branch@ == b
    &&& l.pr_number == if s.managed(b) {
        s.branches[b].pr_number
    } else {
        None
    }
    &&& opt_view(l.worktree) == picker_mark(worktrees, b)
}

/// What is offered for some children, in their order.
pub fn child_picker_labels(
    state: &StackState,
    children: &Vec<String>,
    wt_map: &NameMap<String>,
) -> (r: Vec<PickerLabel>)
    ensures
        r.len() == children.len(),
        forall|i: int|
            0 <= i < r.len() ==> label_for(
                state@,
                path_views(wt_map@),
                children@[i]@,
                #[trigger] r@[i],
            ),
{
    let mut out: Vec<PickerLabel> = Vec::new();
    let mut i: usize = 0;
    while i < children.len()
        invariant
            i <= children.len(),
            out.len() == i,
            forall|j: int|
                0 <= j < i ==> label_for(
                    state@,
                    path_views(wt_map@),
                    children@[j]@,
                    #[trigger] out@[j],
                ),
        decreases children.len() - i,
    {
        let b: &String = &children[i];
        let pr_number: Option<u64> = match state.branches.get(b) {
            Some(meta) => meta.pr_number,
            None => None,
        };
        out.push(
            PickerLabel {
                branch: b.clone(),
                pr_number,
                worktree: worktree_picker_suffix(wt_map, b),
            },
        );
        i += 1;
    }
    out
}

/// What is said where `arg` names no child of `current`.
pub open spec fn no_child_text(
    current: Seq<char>,
    arg: Seq<char>,
    names: Seq<Seq<char>>,
) -> Seq<char> {
    match number_of(arg) {
        Some(n) => "no child of `"@ + current + "` has PR #"@ + decimal(n as nat)
            + "\n  → Child branches: "@ + joined(names, ", "@)
            + "\n  → Run `ez up <branch>` or `ez up <pr-number>` for one of these"@,
        None => "`"@ + arg + "` is not a child branch of `"@ + current
            + "`\n  → Child branches: "@ + joined(names, ", "@) + "\n  → Run `ez up <branch>`"@,
    }
}

/// Whether `arg` names the child `b`: by its pull request, or by its name.
pub open spec fn names_child(
    s: StackView,
    arg: Seq<char>,
    names: Seq<Seq<char>>,
    b: Seq<char>,
) -> bool {
    match number_of(arg) {
        Some(n) => first_with_pr(s, names, n, b),
        None => b == arg && names.contains(arg),
    }
}

/// The child of `current` that `arg` names, by name or pull request number.
pub fn resolve_explicit_child(
    state: &StackState,
    current: &str,
    arg: &str,
    children: &Vec<String>,
) -> (r: Result<String, EzError>)
    ensures
        match r {
            Ok(b) => names_child(state@, arg@, views(children@), b@),
            Err(e) => {
                &&& match number_of(arg@) {
                    Some(n) => none_with_pr(state@, views(children@), n),
                    None => !views(children@).contains(arg@),
                }
                &&& e@ == ErrorView::UserMessage(
                    no_child_text(current@, arg@, views(children@)),
                )
            },
        },
{
    if let Some(n) = parse_number(arg) {
        return match find_by_pr(state, children, n) {
            Some(b) => Ok(b),
            None => Err(
                EzError::UserMessage(
                    String::from_str("no child of `").concat(current).concat(
                        "` has PR #",
                    ).concat(&number(n)).concat("\n  → Child branches: ").concat(
                        &join(children, ", "),
                    ).concat(
                        "\n  → Run `ez up <branch>` or `ez up <pr-number>` for one of these",
                    ),
                ),
            ),
        };
    }
    if holds(children, arg) {
        return Ok(arg.to_owned());
    }
    Err(
        EzError::UserMessage(
            String::from_str("`").concat(arg).concat("` is not a child branch of `").concat(
                current,
            ).concat("`\n  → Child branches: ").concat(&join(children, ", ")).concat(
                "\n  → Run `ez up <branch>`",
            ),
        ),
    )
}

/// Where a move goes.
#[derive(Debug)]
pub enum Target {
    /// To this branch.
    Branch(String),
    /// To one of several, which the user picks.
    Pick(Vec<String>),
}

/// What is said where several children could be meant and nobody can be asked.
pub open spec fn several_text(current: Seq<char>, names: Seq<Seq<char>>) -> Seq<char> {
    "multiple child branches stack on `"@ + current + "`: "@ + joined(names, ", "@)
        + "\n  → Run `ez up <branch>` or `ez up <pr-number>` to choose one (no TTY for interactive pick)"@
}

/// Where a move up from `current` goes, given its children: to the one named, else to the only
/// one; of several the user picks, if someone can be asked.
pub open spec fn picks(
    s: StackView,
    current: Seq<char>,
    names: Seq<Seq<char>>,
    explicit: Option<Seq<char>>,
    interactive: bool,
    r: Result<Target, EzError>,
) -> bool {
    if names.len() == 0 {
        r matches Err(e) && e@ == ErrorView::AlreadyAtTop
    } else {
        match explicit {
            Some(arg) => match r {
                Ok(Target::Branch(b)) => names_child(s, arg, names, b@),
                Ok(Target::Pick(_)) => false,
                Err(e) => e@ == ErrorView::UserMessage(no_child_text(current, arg, names))
                    && match number_of(arg) {
                    Some(n) => none_with_pr(s, names, n),
                    None => !names.contains(arg),
                },
            },
            None => if names.len() == 1 {
                r matches Ok(Target::Branch(b)) && b@ == names[0]
            } else if interactive {
                r matches Ok(Target::Pick(v)) && views(v@) == names
            } else {
                r matches Err(e) && e@ == ErrorView::UserMessage(several_text(current, names))
            },
        }
    }
}

/// Where a move up from `current` goes, given its children.
pub fn pick_upstream_child(
    state: &StackState,
    current: &str,
    children: &Vec<String>,
    explicit: Option<&str>,
    interactive: bool,
) -> (r: Result<Target, EzError>)
    ensures
        picks(
            state@,
            current@,
            views(children@),
            match explicit {
                Some(a) => Some(a@),
                None => None,
            },
            interactive,
            r,
        ),
{
    assert(views(children@).len() == children.len());
    if children.len() == 0 {
        return Err(EzError::AlreadyAtTop);
    }
    if let Some(arg) = explicit {
        return match resolve_explicit_child(state, current, arg, children) {
            Ok(b) => Ok(Target::Branch(b)),
            Err(e) => Err(e),
        };
    }
    if children.len() == 1 {
        assert(views(children@)[0] == children@[0]@);
        return Ok(Target::Branch(children[0].clone()));
    }
    if interactive {
        return Ok(Target::Pick(crate::text::copy_all(children)));
    }
    Err(
        EzError::UserMessage(
            String::from_str("multiple child branches stack on `").concat(current).concat(
                "`: ",
            ).concat(&join(children, ", ")).concat(
                "\n  → Run `ez up <branch>` or `ez up <pr-number>` to choose one (no TTY for interactive pick)",
            ),
        ),
    )
}

/// The branch below `current`.
pub fn down_target(state: &StackState, current: &str) -> (r: Result<String, EzError>)
    ensures
        match r {
            Ok(p) => current@ != state@.trunk && state@.managed(current@) && p@
                == state@.branches[current@].parent,
            Err(e) => if current@ == state@.trunk {
                e@ == ErrorView::AlreadyAtBottom
            } else {
                !state@.managed(current@) && e@ == ErrorView::BranchNotInStack(current@)
            },
        },
{
    if state.is_trunk(current) {
        return Err(EzError::AlreadyAtBottom);
    }
    match state.get_branch(current) {
        Ok(meta) => Ok(meta.parent.clone()),
        Err(e) => Err(e),
    }
}

/// The top of the stack above `current`.
pub fn top_target(state: &StackState, current: &str) -> (r: Result<String, EzError>)
    ensures
        match r {
            Ok(t) => t@ != current@ && tops(
                state@.branches,
                current@,
                t@,
                state@.branches.len(),
            ),
            Err(e) => tops(state@.branches, current@, current@, state@.branches.len()) && e@
                == ErrorView::AlreadyAtTop,
        },
{
    let target: String = state.stack_top(current);
    if same(&target, current) {
        return Err(EzError::AlreadyAtTop);
    }
    Ok(target)
}

/// Where a move from `current` to the bottom goes.
pub open spec fn bottoms(
    s: StackView,
    current: Seq<char>,
    interactive: bool,
    r: Result<Target, EzError>,
) -> bool {
    let kids = ranked(children(s.branches, current));
    let low = lowest(s.branches, s.trunk, current, s.branches.len());
    if current == s.trunk {
        if kids.len() == 0 {
            r matches Err(e) && e@ == ErrorView::AlreadyAtBottom
        } else {
            picks(s, current, kids, None, interactive, r)
        }
    } else if low == current {
        r matches Err(e) && e@ == ErrorView::AlreadyAtBottom
    } else {
        r matches Ok(Target::Branch(b)) && b@ == low
    }
}

/// The lowest branch of the stack that holds `current`; from the trunk, one of the branches on it.
pub fn bottom_target(state: &StackState, current: &str, interactive: bool) -> (r: Result<
    Target,
    EzError,
>)
    ensures
        bottoms(state@, current@, interactive, r),
{
    if state.is_trunk(current) {
        let kids: Vec<String> = state.children_of(current);
        proof {
            lemma_kids(state@, current@, views(kids@));
        }
        assert(views(kids@).len() == kids.len());
        if kids.len() == 0 {
            return Err(EzError::AlreadyAtBottom);
        }
        return pick_upstream_child(state, current, &kids, None, interactive);
    }
    let bottom: String = state.stack_bottom(current);
    if same(&bottom, current) {
        return Err(EzError::AlreadyAtBottom);
    }
    Ok(Target::Branch(bottom))
}

proof fn lemma_kids(s: StackView, current: Seq<char>, names: Seq<Seq<char>>)
    requires
        crate::text::sorted(names),
        forall|k: Seq<char>| #[trigger] names.contains(k) <==> is_child(s.branches, current, k),
    ensures
        names == ranked(children(s.branches, current)),
{
    assert forall|k: Seq<char>| #[trigger] names.contains(k) <==> children(
        s.branches,
        current,
    ).contains(k) by {
        assert(names.contains(k) <==> is_child(s.branches, current, k));
    }
    lemma_ranked(names, children(s.branches, current));
}

/// Where `up` goes from `current`.
pub fn up(state: &StackState, current: &str, explicit_child: Option<&str>, interactive: bool) -> (r:
    Result<Target, EzError>)
    ensures
        picks(
            state@,
            current@,
            ranked(children(state@.branches, current@)),
            match explicit_child {
                Some(a) => Some(a@),
                None => None,
            },
            interactive,
            r,
        ),
{
    let kids: Vec<String> = state.children_of(current);
    proof {
        lemma_kids(state@, current@, views(kids@));
    }
    pick_upstream_child(state, current, &kids, explicit_child, interactive)
}

/// Where `down` goes from `current`: to its parent, which must be the one named, if one is.
pub fn down(state: &StackState, current: &str, explicit_parent: Option<&str>) -> (r: Result<
    String,
    EzError,
>)
    ensures
        match r {
            Ok(p) => {
                &&& current@ != state@.trunk
                &&& state@.managed(current@)
                &&& p@ == state@.branches[current@].parent
                &&& explicit_parent matches Some(x) ==> x@ == p@
            },
            Err(e) => if current@ == state@.trunk {
                e@ == ErrorView::AlreadyAtBottom
            } else if !state@.managed(current@) {
                e@ == ErrorView::BranchNotInStack(current@)
            } else {
                let p = state@.branches[current@].parent;
                explicit_parent matches Some(x) && x@ != p && e@ == ErrorView::UserMessage(
                    "`"@ + x@ + "` is not the stack parent of `"@ + current@ + "` (expected `"@ + p
                        + "`)\n  → Run `ez down` or `ez down "@ + p + "`"@,
                )
            },
        },
{
    let parent: String = match down_target(state, current) {
        Ok(p) => p,
        Err(e) => {
            return Err(e);
        },
    };
    if let Some(x) = explicit_parent {
        if !same(x, &parent) {
            return Err(
                EzError::UserMessage(
                    String::from_str("`").concat(x).concat(
                        "` is not the stack parent of `",
                    ).concat(current).concat("` (expected `").concat(&parent).concat(
                        "`)\n  → Run `ez down` or `ez down ",
                    ).concat(&parent).concat("`"),
                ),
            );
        }
    }
    Ok(parent)
}

/// Where `top` goes from `current`.
pub fn top(state: &StackState, current: &str) -> (r: Result<String, EzError>)
    ensures
        match r {
            Ok(t) => t@ != current@ && tops(
                state@.branches,
                current@,
                t@,
                state@.branches.len(),
            ),
            Err(e) => tops(state@.branches, current@, current@, state@.branches.len()) && e@
                == ErrorView::AlreadyAtTop,
        },
{
    top_target(state, current)
}

/// Where `bottom` goes from `current`.
pub fn bottom(state: &StackState, current: &str, interactive: bool) -> (r: Result<Target, EzError>)
    ensures
        bottoms(state@, current@, interactive, r),
{
    bottom_target(state, current, interactive)
}

/// Going down from where `up` led leads back, and there is no going further down than the trunk.
pub proof fn law_down_undoes_up(
    s: StackView,
    current: Seq<char>,
    explicit: Option<Seq<char>>,
    interactive: bool,
    b: String,
)
    requires
        s.branches.dom().finite(),
        picks(
            s,
            current,
            ranked(children(s.branches, current)),
            explicit,
            interactive,
            Ok(Target::Branch(b)),
        ),
    ensures
        s.managed(b@),
        s.branches[b@].parent == current,
{
    let kids = children(s.branches, current);
    let names = ranked(kids);
    assert(kids.subset_of(s.branches.dom()));
    vstd::set_lib::lemma_set_subset_finite(s.branches.dom(), kids);
    lemma_ranked_exists(kids);
    assert(names.contains(b@)) by {
        match explicit {
            Some(arg) => match number_of(arg) {
                Some(n) => {
                    assert(first_with_pr(s, names, n, b@));
                },
                None => {},
            },
            None => {
                assert(names[0] == b@);
            },
        }
    }
    assert(kids.contains(b@));
    assert(is_child(s.branches, current, b@));
}

/// A move up goes to the child named, by its name or by its pull request; without a name to the
/// only child. With no child, with several and none named, or with a name that fits none, it goes
/// nowhere.
pub proof fn law_up_goes_to_a_child(
    s: StackView,
    current: Seq<char>,
    names: Seq<Seq<char>>,
    explicit: Option<Seq<char>>,
    interactive: bool,
    r: Result<Target, EzError>,
)
    requires
        picks(s, current, names, explicit, interactive, r),
    ensures
        names.len() == 0 ==> r is Err,
        r matches Ok(Target::Branch(b)) ==> names.contains(b@),
        r matches Ok(Target::Branch(b)) ==> (explicit is Some && number_of(explicit->0) is None
            ==> b@ == explicit->0),
        r matches Ok(Target::Branch(b)) ==> (explicit is Some && number_of(explicit->0) is Some
            ==> s.branches[b@].pr_number == number_of(explicit->0)),
        r matches Ok(Target::Pick(v)) ==> explicit is None && interactive && names.len() > 1
            && views(v@) == names,
        names.len() == 1 && explicit is None ==> (r matches Ok(Target::Branch(b)) && b@ == names[0]),
        names.len() > 1 && explicit is None && !interactive ==> r is Err,
        explicit is Some && number_of(explicit->0) is None ==> (r is Ok <==> names.contains(
            explicit->0,
        )),
        explicit is Some && number_of(explicit->0) is Some ==> (r is Ok <==> exists|i: int|
            0 <= i < names.len() && s.branches.contains_key(#[trigger] names[i])
                && s.branches[names[i]].pr_number == number_of(explicit->0)),
{
}

/// A move to the bottom from a stacked branch goes to the branch of its path that stands on the
/// trunk, and nowhere from that branch itself.
pub proof fn law_bottom_goes_to_the_trunks_child(
    s: StackView,
    current: Seq<char>,
    interactive: bool,
    r: Result<Target, EzError>,
)
    requires
        s.branches.dom().finite(),
        crate::stack::descends(s.branches, s.trunk, current),
        current != s.trunk,
        bottoms(s, current, interactive, r),
    ensures
        r matches Ok(Target::Branch(b)) ==> s.branches.contains_key(b@) && s.branches[b@].parent
            == s.trunk && crate::stack::descends(s.branches, b@, current),
        r matches Err(e) ==> s.branches[current].parent == s.trunk && e@
            == ErrorView::AlreadyAtBottom,
        !(r matches Ok(Target::Pick(_))),
{
    crate::stack::law_bottom_stands_on_trunk(s, current);
}

/// A branch is marked with the last name of its worktree's path where that lies under the
/// directory for worktrees.
pub proof fn law_picker_marks_linked_worktrees(
    worktrees: Map<Seq<char>, Seq<char>>,
    name: Seq<char>,
)
    ensures
        picker_mark(worktrees, name) is Some <==> worktrees.contains_key(name) && occurs(
            worktrees[name],
            "/.worktrees/"@,
        ),
        picker_mark(worktrees, name) matches Some(mark) ==> mark == "[wt: "@ + base_name(
            worktrees[name],
        ) + "]"@,
{
}

} // verus!
