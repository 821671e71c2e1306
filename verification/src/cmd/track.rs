//! Recording an existing local branch.

use crate::error::{ErrorView, EzError};
use crate::git::GitView;
use crate::json::{no_fields, Json, JsonObject, JsonView};
use crate::names::ranked;
use crate::stack::{fresh_meta, StackState, StackView};
use crate::text::{opt_view, prefix, same, short, views};
use vstd::prelude::*;
use vstd::string::*;

verus! {

/// A branch and its merge base with another: the best candidate for a parent so far.
pub struct Closest {
    pub branch: String,
    pub base: String,
}

/// The closest candidate after all of `names`: one whose merge base with `branch` is a strict
/// descendant of the best so far takes its place. `branch` itself and names without a merge base
/// are passed over.
pub open spec fn closest(
    g: GitView,
    branch: Seq<char>,
    first: (Seq<char>, Seq<char>),
    names: Seq<Seq<char>>,
) -> (Seq<char>, Seq<char>)
    decreases names.len(),
{
    if names.len() == 0 {
        first
    } else {
        let best = closest(g, branch, first, names.drop_last());
        let c = names.last();
        match g.base(c, branch) {
            Some(mb) => if c != branch && mb != best.1 && g.ancestor(best.1, mb) {
                (c, mb)
            } else {
                best
            },
            None => best,
        }
    }
}

/// What is reported where a branch and the trunk have no merge base.
pub open spec fn no_base_text(branch: Seq<char>, trunk: Seq<char>) -> Seq<char> {
    "could not find a merge-base between `"@ + branch + "` and trunk `"@ + trunk
        + "`\n  → Pass `--parent <name>` explicitly"@
}

/// The closest of the candidates in `names`, beginning with the trunk.
pub fn select_best_parent(
    git: &GitView,
    branch: &str,
    trunk: &str,
    trunk_base: &str,
    names: &Vec<String>,
) -> (r: Closest)
    ensures
        (r.branch@, r.base@) == closest(*git, branch@, (trunk@, trunk_base@), views(names@)),
{
    let ghost all = views(names@);
    let ghost first = (trunk@, trunk_base@);
    let mut best = Closest { branch: trunk.to_owned(), base: trunk_base.to_owned() };
    let mut i: usize = 0;
    assert(all.take(0) =~= Seq::<Seq<char>>::empty());
    while i < names.len()
        invariant
            i <= names.len(),
            all == views(names@),
            (best.branch@, best.base@) == closest(*git, branch@, first, all.take(i as int)),
        decreases names.len() - i,
    {
        assert(all.take(i + 1).drop_last() =~= all.take(i as int));
        assert(all.take(i + 1).last() == names@[i as int]@);
        if let Some(mb) = git.merge_base(&names[i], branch) {
            if !same(&names[i], branch) && !same(&mb, &best.base) && git.is_ancestor(
                &best.base,
                &mb,
            ) {
                best = Closest { branch: names[i].clone(), base: mb };
            }
        }
        i += 1;
    }
    assert(all.take(names.len() as int) =~= all);
    best
}

/// The parent that the commit graph suggests for `branch`: the recorded branch whose merge base
/// with it lies deepest, or the trunk.
pub open spec fn inferred(g: GitView, s: StackView, branch: Seq<char>) -> Option<Seq<char>> {
    match g.base(s.trunk, branch) {
        Some(mb) => Some(closest(g, branch, (s.trunk, mb), ranked(s.branches.dom())).0),
        None => None,
    }
}

/// The parent that the commit graph suggests for `branch`.
pub fn infer_parent(git: &GitView, branch: &str, state: &StackState) -> (r: Result<String, EzError>)
    ensures
        match r {
            Ok(p) => inferred(*git, state@, branch@) == Some(p@),
            Err(e) => inferred(*git, state@, branch@) is None && e@ == ErrorView::UserMessage(
                no_base_text(branch@, state@.trunk),
            ),
        },
{
    match git.merge_base(&state.trunk, branch) {
        None => Err(
            EzError::UserMessage(
                String::from_str("could not find a merge-base between `").concat(branch).concat(
                    "` and trunk `",
                ).concat(&state.trunk).concat("`\n  → Pass `--parent <name>` explicitly"),
            ),
        ),
        Some(mb) => {
            let keys: Vec<String> = state.branches.keys();
            proof {
                crate::names::lemma_ranked(views(keys@), state@.branches.dom());
            }
            let best: Closest = select_best_parent(git, branch, &state.trunk, &mb, &keys);
            Ok(best.branch)
        },
    }
}

/// Whether ancestry orders commits: no two distinct commits are ancestors of each other, and an
/// ancestor's ancestor is an ancestor.
pub open spec fn ancestry_orders(g: GitView) -> bool {
    &&& forall|a: Seq<char>, b: Seq<char>|
        #![trigger g.ancestor(a, b), g.ancestor(b, a)]
        g.ancestor(a, b) && g.ancestor(b, a) ==> a == b
    &&& forall|a: Seq<char>, b: Seq<char>, c: Seq<char>|
        #![trigger g.ancestor(a, b), g.ancestor(b, c)]
        g.ancestor(a, b) && g.ancestor(b, c) ==> g.ancestor(a, c)
}

/// Whether the merge base of candidate `c` is a strict descendant of `mb`.
pub open spec fn deeper(g: GitView, branch: Seq<char>, mb: Seq<char>, c: Seq<char>) -> bool {
    c != branch && g.base(c, branch) is Some && g.base(c, branch)->0 != mb && g.ancestor(
        mb,
        g.base(c, branch)->0,
    )
}

/// No candidate has a merge base deeper than that of the one chosen, in whatever order they are
/// tried, and the one chosen has the first one's merge base or a deeper one.
pub proof fn law_closest_is_deepest(
    g: GitView,
    branch: Seq<char>,
    first: (Seq<char>, Seq<char>),
    names: Seq<Seq<char>>,
)
    requires
        ancestry_orders(g),
    ensures
        forall|i: int|
            0 <= i < names.len() ==> !deeper(
                g,
                branch,
                closest(g, branch, first, names).1,
                #[trigger] names[i],
            ),
        closest(g, branch, first, names) == first || (names.contains(
            closest(g, branch, first, names).0,
        ) && g.ancestor(first.1, closest(g, branch, first, names).1)),
    decreases names.len(),
{
    if names.len() > 0 {
        let low = names.drop_last();
        law_closest_is_deepest(g, branch, first, low);
        let best = closest(g, branch, first, low);
        let end = closest(g, branch, first, names);
        assert forall|i: int| 0 <= i < names.len() implies !deeper(
            g,
            branch,
            end.1,
            #[trigger] names[i],
        ) by {
            if i < low.len() {
                assert(low[i] == names[i]);
                assert(!deeper(g, branch, best.1, low[i]));
                if end != best && deeper(g, branch, end.1, names[i]) {
                    let mb = g.base(names[i], branch)->0;
                    assert(g.ancestor(best.1, end.1));
                    assert(g.ancestor(end.1, mb));
                    assert(g.ancestor(best.1, mb));
                    if mb == best.1 {
                        assert(g.ancestor(end.1, best.1));
                    }
                }
            }
        }
        if end != best {
            assert(names[names.len() - 1] == end.0);
            assert(names.contains(end.0));
        } else if best != first {
            let j = choose|j: int| 0 <= j < low.len() && low[j] == best.0;
            assert(names[j] == best.0);
        }
    }
}

/// Why `target` cannot be recorded, if so, given the parent asked for.
pub open spec fn track_fault(
    s: StackView,
    g: GitView,
    target: Seq<char>,
    parent: Option<Seq<char>>,
) -> Option<Seq<char>> {
    if target == s.trunk {
        Some(
            "`"@ + target
                + "` is the trunk branch and cannot be tracked as a stacked branch\n  → Run `ez create <name>` to start a new stack on top of trunk"@,
        )
    } else if !g.has_branch(target) {
        Some(
            "branch `"@ + target
                + "` does not exist locally\n  → Run `git branch` to see local branches, or `ez create "@
                + target + "` to create it"@,
        )
    } else if s.managed(target) {
        Some(
            "branch `"@ + target + "` is already tracked (parent: `"@ + s.branches[target].parent
                + "`)\n  → Run `ez move --parent <name>` to reparent, or `ez log` to inspect the stack"@,
        )
    } else {
        match parent {
            Some(p) => if p == target {
                Some("cannot set `"@ + target + "` as its own parent"@)
            } else if p != s.trunk && !s.managed(p) {
                Some(
                    "parent `"@ + p
                        + "` is not the trunk or a tracked branch\n  → Run `ez list` to see tracked branches, or `ez track "@
                        + p + "` first to track it"@,
                )
            } else if !g.has_branch(p) {
                Some("parent `"@ + p + "` does not exist locally"@)
            } else {
                None
            },
            None => if inferred(g, s, target) is None {
                Some(no_base_text(target, s.trunk))
            } else {
                None
            },
        }
    }
}

/// The parent under which `target` is to be recorded: the one asked for, else the inferred one.
pub fn run(state: &StackState, git: &GitView, target: &str, parent: Option<String>) -> (r: Result<
    String,
    EzError,
>)
    ensures
        match r {
            Ok(p) => {
                &&& track_fault(state@, *git, target@, opt_view(parent)) is None
                &&& Some(p@) == match opt_view(parent) {
                    Some(q) => Some(q),
                    None => inferred(*git, state@, target@),
                }
            },
            Err(e) => track_fault(state@, *git, target@, opt_view(parent)) matches Some(text)
                && e@ == ErrorView::UserMessage(text),
        },
{
    if state.is_trunk(target) {
        return Err(
            EzError::UserMessage(
                String::from_str("`").concat(target).concat(
                    "` is the trunk branch and cannot be tracked as a stacked branch\n  → Run `ez create <name>` to start a new stack on top of trunk",
                ),
            ),
        );
    }
    if !git.branch_exists(target) {
        return Err(
            EzError::UserMessage(
                String::from_str("branch `").concat(target).concat(
                    "` does not exist locally\n  → Run `git branch` to see local branches, or `ez create ",
                ).concat(target).concat("` to create it"),
            ),
        );
    }
    if let Some(meta) = state.branches.get(target) {
        return Err(
            EzError::UserMessage(
                String::from_str("branch `").concat(target).concat(
                    "` is already tracked (parent: `",
                ).concat(&meta.parent).concat(
                    "`)\n  → Run `ez move --parent <name>` to reparent, or `ez log` to inspect the stack",
                ),
            ),
        );
    }
    match parent {
        Some(p) => {
            if same(&p, target) {
                return Err(
                    EzError::UserMessage(
                        String::from_str("cannot set `").concat(target).concat(
                            "` as its own parent",
                        ),
                    ),
                );
            }
            if !state.is_trunk(&p) && !state.is_managed(&p) {
                return Err(
                    EzError::UserMessage(
                        String::from_str("parent `").concat(&p).concat(
                            "` is not the trunk or a tracked branch\n  → Run `ez list` to see tracked branches, or `ez track ",
                        ).concat(&p).concat("` first to track it"),
                    ),
                );
            }
            if !git.branch_exists(&p) {
                return Err(
                    EzError::UserMessage(
                        String::from_str("parent `").concat(&p).concat("` does not exist locally"),
                    ),
                );
            }
            Ok(p)
        },
        None => infer_parent(git, target, state),
    }
}

/// Records `target` on the commit where it leaves its parent, and makes the receipt. Without
/// such a commit nothing is recorded.
pub fn record(
    state: &mut StackState,
    target: &str,
    parent: &str,
    merge_base: Option<String>,
    ahead: u64,
) -> (r: Result<Json, EzError>)
    ensures
        match merge_base {
            Some(head) => {
                &&& final(state)@ == old(state)@.with_branches(
                    old(state)@.branches.insert(
                        target@,
                        fresh_meta(parent@, head@, None, None),
                    ),
                )
                &&& r matches Ok(j) && j@ == JsonView::Object(
                    no_fields().insert("cmd"@, JsonView::Text("track"@)).insert(
                        "branch"@,
                        JsonView::Text(target@),
                    ).insert("parent"@, JsonView::Text(parent@)).insert(
                        "parent_head"@,
                        JsonView::Text(prefix(head@, 7)),
                    ).insert("commits_ahead"@, JsonView::Number(ahead)),
                )
            },
            None => {
                &&& final(state)@ == old(state)@
                &&& r matches Err(e) && e@ == ErrorView::UserMessage(
                    "`"@ + target@ + "` and `"@ + parent@
                        + "` have no common history\n  → Pass `--parent <name>` explicitly"@,
                )
            },
        },
{
    match merge_base {
        Some(head) => {
            state.add_branch(target, parent, &head, None, None);
            Ok(
                JsonObject::new().field("cmd", Json::text("track")).field(
                    "branch",
                    Json::text(target),
                ).field("parent", Json::text(parent)).field(
                    "parent_head",
                    Json::text(&short(&head)),
                ).field("commits_ahead", Json::Number(ahead)).done(),
            )
        },
        None => Err(
            EzError::UserMessage(
                String::from_str("`").concat(target).concat("` and `").concat(parent).concat(
                    "` have no common history\n  → Pass `--parent <name>` explicitly",
                ),
            ),
        ),
    }
}

/// A branch can be tracked exactly where it is another than the trunk, git has it, it is not
/// recorded yet, and its parent is the trunk or a recorded branch that git has; without a parent
/// given, git must know a merge base with the trunk.
pub proof fn law_tracking_is_refused_for_cause(
    s: StackView,
    g: GitView,
    target: Seq<char>,
    parent: Option<Seq<char>>,
)
    ensures
        track_fault(s, g, target, parent) is None <==> {
            &&& target != s.trunk
            &&& g.has_branch(target)
            &&& !s.branches.contains_key(target)
            &&& match parent {
                Some(p) => p != target && (p == s.trunk || s.branches.contains_key(p))
                    && g.has_branch(p),
                None => g.base(s.trunk, target) is Some,
            }
        },
{
}

/// The parent that the commit graph suggests is the trunk or a recorded branch other than the
/// branch itself; there is one exactly where git knows a merge base with the trunk.
pub proof fn law_suggested_parent_is_recorded(s: StackView, g: GitView, branch: Seq<char>)
    requires
        ancestry_orders(g),
        s.branches.dom().finite(),
    ensures
        inferred(g, s, branch) is Some <==> g.base(s.trunk, branch) is Some,
        inferred(g, s, branch) matches Some(p) ==> p == s.trunk || (s.branches.contains_key(p) && p
            != branch),
{
    if let Some(mb) = g.base(s.trunk, branch) {
        let names = ranked(s.branches.dom());
        crate::names::lemma_ranked_exists(s.branches.dom());
        law_closest_is_deepest(g, branch, (s.trunk, mb), names);
        law_suggestion_carries_its_merge_base(g, branch, (s.trunk, mb), names);
        let p = closest(g, branch, (s.trunk, mb), names).0;
        if names.contains(p) {
            assert(s.branches.dom().contains(p));
        }
    }
}

/// What is suggested with its merge base is the first candidate, or a candidate with the merge
/// base that git knows of it.
pub proof fn law_suggestion_carries_its_merge_base(
    g: GitView,
    branch: Seq<char>,
    first: (Seq<char>, Seq<char>),
    names: Seq<Seq<char>>,
)
    ensures
        closest(g, branch, first, names) == first || (closest(g, branch, first, names).0 != branch
            && g.base(closest(g, branch, first, names).0, branch) == Some(
            closest(g, branch, first, names).1,
        )),
    decreases names.len(),
{
    if names.len() > 0 {
        law_suggestion_carries_its_merge_base(g, branch, first, names.drop_last());
    }
}

} // verus!
