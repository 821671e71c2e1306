//! Showing the stack as a tree.

use crate::branch_map::is_child;
use crate::cmd::native_stack::{InspectionView, NativeStackInspection};
use crate::cmd::restack::receipt_views;
use crate::error::{ErrorView, EzError};
use crate::git::WorktreeInfo;
use crate::github::PrInfo;
use crate::json::{
    no_fields, number_list, number_or_null, text_list, text_or_null, Json, JsonObject, JsonView,
};
use crate::name_map::NameMap;
use crate::names::{lemma_ranked, ranked};
use crate::stack::{breadth_first, children, descends, topo, Forest, StackState, StackView};
use crate::text::{
    base_name, contains, count, decimal, file_label, number, occurs, opt_view, same, views,
};
use vstd::prelude::*;
use vstd::string::*;

verus! {

/// A line of the tree: a branch, how deep it stands, and whether it and each branch below it is
/// the last of its siblings.
#[derive(Debug)]
pub struct TreeRow {
    pub branch: String,
    pub depth: usize,
    pub is_last: bool,
    pub ancestors_last: Vec<bool>,
}

/// The contents of a `TreeRow`.
#[verifier::ext_equal]
pub struct RowView {
    pub branch: Seq<char>,
    pub depth: nat,
    pub is_last: bool,
    pub ancestors_last: Seq<bool>,
}

impl View for TreeRow {
    type V = RowView;

    open spec fn view(&self) -> RowView {
        RowView {
            branch: self.branch@,
            depth: self.depth as nat,
            is_last: self.is_last,
            ancestors_last: self.ancestors_last@,
        }
    }
}

/// The contents of a list of rows.
pub open spec fn row_views(s: Seq<TreeRow>) -> Seq<RowView> {
    s.map_values(|r: TreeRow| r@)
}

/// The lines for a branch and all above it, parents right before their children, siblings by
/// name, at most `n` levels up.
pub open spec fn subtree(m: Forest, row: RowView, n: nat) -> Seq<RowView>
    decreases n, 0nat,
{
    seq![row] + if n == 0 {
        Seq::empty()
    } else {
        siblings(
            m,
            ranked(children(m, row.branch)),
            row.depth + 1,
            row.ancestors_last.push(row.is_last),
            (n - 1) as nat,
            ranked(children(m, row.branch)).len(),
        )
    }
}

/// The lines for the first `k` of some siblings and all above them.
pub open spec fn siblings(
    m: Forest,
    names: Seq<Seq<char>>,
    depth: nat,
    ancestors_last: Seq<bool>,
    n: nat,
    k: nat,
) -> Seq<RowView>
    decreases n, k + 1,
{
    if k == 0 || k > names.len() {
        Seq::empty()
    } else {
        siblings(m, names, depth, ancestors_last, n, (k - 1) as nat) + subtree(
            m,
            RowView {
                branch: names[k - 1],
                depth,
                is_last: k == names.len(),
                ancestors_last,
            },
            n,
        )
    }
}

fn copy_flags(v: &Vec<bool>) -> (r: Vec<bool>)
    ensures
        r@ == v@,
{
    let mut out: Vec<bool> = Vec::new();
    let mut i: usize = 0;
    while i < v.len()
        invariant
            i <= v.len(),
            out@ =~= v@.take(i as int),
        decreases v.len() - i,
    {
        out.push(v[i]);
        i += 1;
    }
    assert(out@ =~= v@);
    out
}

/// Adds the lines for a branch and all above it.
fn render_tree(state: &StackState, row: TreeRow, left: usize, out: &mut Vec<TreeRow>)
    requires
        row.depth + left < usize::MAX,
    ensures
        row_views(final(out)@) == row_views(old(out)@) + subtree(
            state@.branches,
            row@,
            left as nat,
        ),
    decreases left, 0nat,
{
    let ghost m = state@.branches;
    let ghost start = row_views(out@);
    let ghost v = row@;
    let kids: Vec<String> = state.children_of(&row.branch);
    let depth: usize = row.depth;
    let mut above: Vec<bool> = copy_flags(&row.ancestors_last);
    above.push(row.is_last);
    assert(above@ =~= v.ancestors_last.push(v.is_last));
    proof {
        assert forall|k: Seq<char>| #[trigger]
            views(kids@).contains(k) <==> children(m, v.branch).contains(k) by {
            assert(views(kids@).contains(k) <==> is_child(m, v.branch, k));
        }
        lemma_ranked(views(kids@), children(m, v.branch));
    }
    out.push(row);
    assert(row_views(out@) =~= start + seq![v]);
    if left == 0 {
        assert(start + seq![v] =~= start + (seq![v] + Seq::<RowView>::empty()));
        return;
    }
    render_siblings(state, &kids, depth + 1, &above, left - 1, out);
    proof {
        let rest = siblings(
            m,
            views(kids@),
            v.depth + 1,
            above@,
            (left - 1) as nat,
            views(kids@).len(),
        );
        assert((start + seq![v]) + rest =~= start + (seq![v] + rest));
    }
}

/// Adds the lines for some siblings and all above them.
fn render_siblings(
    state: &StackState,
    names: &Vec<String>,
    depth: usize,
    ancestors_last: &Vec<bool>,
    left: usize,
    out: &mut Vec<TreeRow>,
)
    requires
        depth + left < usize::MAX,
    ensures
        row_views(final(out)@) == row_views(old(out)@) + siblings(
            state@.branches,
            views(names@),
            depth as nat,
            ancestors_last@,
            left as nat,
            views(names@).len(),
        ),
    decreases left, 1nat,
{
    let ghost m = state@.branches;
    let ghost all = views(names@);
    let ghost start = row_views(out@);
    let mut i: usize = 0;
    assert(start + Seq::<RowView>::empty() =~= start);
    while i < names.len()
        invariant
            i <= names.len(),
            m == state@.branches,
            all == views(names@),
            depth + left < usize::MAX,
            row_views(out@) == start + siblings(
                m,
                all,
                depth as nat,
                ancestors_last@,
                left as nat,
                i as nat,
            ),
        decreases names.len() - i,
    {
        let ghost held = row_views(out@);
        let row = TreeRow {
            branch: names[i].clone(),
            depth,
            is_last: i == names.len() - 1,
            ancestors_last: copy_flags(ancestors_last),
        };
        let ghost v = row@;
        assert(all[i as int] == names@[i as int]@);
        render_tree(state, row, left, out);
        proof {
            let low = siblings(m, all, depth as nat, ancestors_last@, left as nat, i as nat);
            let more = subtree(m, v, left as nat);
            assert(start + low + more =~= start + (low + more));
        }
        i += 1;
    }
}

/// The lines of the tree on the trunk.
pub open spec fn tree_rows(s: StackView) -> Seq<RowView> {
    let roots = ranked(children(s.branches, s.trunk));
    siblings(s.branches, roots, 1, Seq::empty(), s.branches.len(), roots.len())
}

/// The lines of the tree on the trunk: every branch right after the one it stands on, siblings
/// by name.
pub fn tree(state: &StackState) -> (r: Vec<TreeRow>)
    requires
        state@.branches.len() + 1 < usize::MAX,
    ensures
        row_views(r@) == tree_rows(state@),
{
    let roots: Vec<String> = state.children_of(&state.trunk);
    let ghost m = state@.branches;
    proof {
        assert forall|k: Seq<char>| #[trigger]
            views(roots@).contains(k) <==> children(m, state@.trunk).contains(k) by {
            assert(views(roots@).contains(k) <==> is_child(m, state@.trunk, k));
        }
        lemma_ranked(views(roots@), children(m, state@.trunk));
    }
    let mut out: Vec<TreeRow> = Vec::new();
    let none: Vec<bool> = Vec::new();
    assert(none@ =~= Seq::<bool>::empty());
    assert(row_views(out@) =~= Seq::<RowView>::empty());
    let levels: usize = state.branches.len();
    render_siblings(state, &roots, 1, &none, levels, &mut out);
    assert(row_views(out@) =~= tree_rows(state@));
    out
}

/// What is known of a branch when its line is shown.
#[derive(Debug)]
pub struct LineFacts {
    pub worktree: Option<String>,
    /// What GitHub says of the recorded pull request.
    pub pr: Option<PrInfo>,
    pub ci: String,
    pub commits: usize,
    pub native_summary: Option<String>,
}

/// The pull request shown on a line: its number, its state, and the word after it.
pub open spec fn pr_shown(recorded: Option<u64>, found: Option<PrInfo>) -> Option<
    (u64, Seq<char>, bool, Option<Seq<char>>),
> {
    match recorded {
        None => None,
        Some(n) => match found {
            Some(pr) => Some(
                (
                    pr.number,
                    pr.state@,
                    pr.is_draft,
                    Some(
                        if pr.is_draft {
                            "draft"@
                        } else {
                            pr.state@
                        },
                    ),
                ),
            ),
            None => Some((n, "OPEN"@, false, None)),
        },
    }
}

/// The parts of a line of the tree.
#[derive(Debug)]
pub struct LineParts {
    /// The worktree in brackets.
    pub worktree: Option<String>,
    /// The pull request's number, state and draft mark, and the word after it.
    pub pr: Option<(u64, String, bool, Option<String>)>,
    pub ci: Option<String>,
    pub commits: String,
    /// The native stack in brackets.
    pub native: Option<String>,
    pub is_current: bool,
}

/// The number of commits in words.
pub open spec fn commits_text(n: nat) -> Seq<char> {
    if n == 1 {
        " 1 commit"@
    } else {
        " "@ + decimal(n) + " commits"@
    }
}

/// The mark for a native stack.
pub open spec fn native_mark(summary: Seq<char>) -> Seq<char> {
    "[native: "@ + summary + "]"@
}

/// The mark for a native stack, as it stands on a line.
pub fn native_stack_log_suffix(summary: &str) -> (r: String)
    ensures
        r@ == " "@ + native_mark(summary@),
{
    let mark: String = String::from_str("[native: ").concat(summary).concat("]");
    String::from_str(" ").concat(&mark)
}

/// The parts of the line of a recorded branch.
pub fn line_parts(state: &StackState, branch: &str, current: &str, facts: LineFacts) -> (r: Result<
    LineParts,
    EzError,
>)
    ensures
        match r {
            Err(e) => !state@.managed(branch@) && e@ == ErrorView::BranchNotInStack(branch@),
            Ok(p) => {
                let recorded = state@.branches[branch@].pr_number;
                &&& state@.managed(branch@)
                &&& opt_view(p.worktree) == match facts.worktree {
                    Some(w) => Some("[wt: "@ + base_name(w@) + "]"@),
                    None => None,
                }
                &&& (match p.pr {
                    Some(x) => Some((x.0, x.1@, x.2, opt_view(x.3))),
                    None => None,
                }) == pr_shown(recorded, facts.pr)
                &&& opt_view(p.ci) == if recorded is Some && facts.ci@.len() > 0 {
                    Some(facts.ci@)
                } else {
                    None
                }
                &&& p.commits@ == commits_text(facts.commits as nat)
                &&& opt_view(p.native) == match facts.native_summary {
                    Some(s) => Some(native_mark(s@)),
                    None => None,
                }
                &&& p.is_current == (branch@ == current@)
            },
        },
{
    let recorded: Option<u64> = match state.get_branch(branch) {
        Ok(meta) => meta.pr_number,
        Err(e) => {
            return Err(e);
        },
    };
    let worktree: Option<String> = match facts.worktree {
        Some(w) => Some(String::from_str("[wt: ").concat(&file_label(&w)).concat("]")),
        None => None,
    };
    let pr: Option<(u64, String, bool, Option<String>)> = match recorded {
        None => None,
        Some(n) => match facts.pr {
            Some(info) => {
                let word: String = if info.is_draft {
                    String::from_str("draft")
                } else {
                    info.state.clone()
                };
                Some((info.number, info.state, info.is_draft, Some(word)))
            },
            None => Some((n, String::from_str("OPEN"), false, None)),
        },
    };
    let ci: Option<String> = if recorded.is_some() && !facts.ci.as_str().is_empty() {
        Some(facts.ci)
    } else {
        None
    };
    let commits: String = if facts.commits == 1 {
        String::from_str(" 1 commit")
    } else {
        String::from_str(" ").concat(&count(facts.commits)).concat(" commits")
    };
    let native: Option<String> = match facts.native_summary {
        Some(s) => Some(String::from_str("[native: ").concat(&s).concat("]")),
        None => None,
    };
    Ok(LineParts { worktree, pr, ci, commits, native, is_current: same(branch, current) })
}

/// The worktrees of branches under a `.worktrees` directory, by branch; the last where a branch
/// has several.
pub open spec fn own_worktrees(s: Seq<WorktreeInfo>) -> Map<Seq<char>, Seq<char>>
    decreases s.len(),
{
    if s.len() == 0 {
        Map::empty()
    } else {
        let low = own_worktrees(s.drop_last());
        let w = s.last();
        match w.branch {
            Some(b) => if occurs(w.path@, "/.worktrees/"@) {
                low.insert(b@, w.path@)
            } else {
                low
            },
            None => low,
        }
    }
}

/// The worktrees of branches under a `.worktrees` directory, by branch.
pub fn own_worktree_map(worktrees: &Vec<WorktreeInfo>) -> (r: NameMap<String>)
    ensures
        crate::cmd::sync::path_views(r@) == own_worktrees(worktrees@),
{
    let mut out: NameMap<String> = NameMap::new();
    let mut i: usize = 0;
    assert(worktrees@.take(0) =~= Seq::<WorktreeInfo>::empty());
    assert(crate::cmd::sync::path_views(out@) =~= Map::<Seq<char>, Seq<char>>::empty());
    while i < worktrees.len()
        invariant
            i <= worktrees.len(),
            crate::cmd::sync::path_views(out@) == own_worktrees(worktrees@.take(i as int)),
        decreases worktrees.len() - i,
    {
        let ghost held = out@;
        let w: &WorktreeInfo = &worktrees[i];
        assert(worktrees@.take(i + 1).drop_last() =~= worktrees@.take(i as int));
        assert(worktrees@.take(i + 1).last() == w);
        if let Some(b) = &w.branch {
            if contains(&w.path, "/.worktrees/") {
                out.insert(b.clone(), w.path.clone());
                assert(crate::cmd::sync::path_views(out@) =~= crate::cmd::sync::path_views(
                    held,
                ).insert(b@, w.path@));
            }
        }
        i += 1;
    }
    assert(worktrees@.take(worktrees.len() as int) =~= worktrees@);
    out
}

/// An inspection as part of a listing.
pub open spec fn inspection_json(i: InspectionView) -> JsonView {
    let base = no_fields().insert("provider"@, JsonView::Text(i.provider)).insert(
        "preview"@,
        JsonView::Bool(i.preview),
    ).insert("state"@, JsonView::Text(i.state)).insert(
        "local"@,
        JsonView::Object(
            no_fields().insert("branches"@, text_list(i.local.branches)).insert(
                "pull_requests"@,
                number_list(i.local.pr_numbers),
            ),
        ),
    ).insert(
        "github"@,
        match i.github {
            None => JsonView::Null,
            Some(g) => JsonView::Object(
                no_fields().insert("number"@, JsonView::Number(g.number)).insert(
                    "base_ref"@,
                    text_or_null(g.base_ref),
                ).insert("open"@, crate::json::bool_or_null(g.open)).insert(
                    "position"@,
                    match g.position {
                        Some(p) => JsonView::Number(p as u64),
                        None => JsonView::Null,
                    },
                ).insert("size"@, JsonView::Number(g.size as u64)).insert(
                    "pull_requests"@,
                    number_list(g.pull_requests),
                ),
            ),
        },
    );
    let reasoned = match i.reason {
        Some(r) => base.insert("reason"@, JsonView::Text(r)),
        None => base,
    };
    JsonView::Object(
        match i.error {
            Some(e) => reasoned.insert("error"@, JsonView::Text(e)),
            None => reasoned,
        },
    )
}

/// An inspection as part of a listing.
pub fn inspection_value(i: &NativeStackInspection) -> (r: Json)
    ensures
        r@ == inspection_json(i@),
{
    let local: Json = JsonObject::new().field("branches", Json::texts(&i.local.branches)).field(
        "pull_requests",
        Json::numbers(&i.local.pull_requests),
    ).done();
    let github: Json = match &i.github {
        None => Json::Null,
        Some(g) => {
            let position: Json = match g.position {
                Some(p) => Json::count(p),
                None => Json::Null,
            };
            JsonObject::new().field("number", Json::Number(g.number)).field(
                "base_ref",
                Json::opt_text(&g.base_ref),
            ).field("open", Json::opt_bool(g.open)).field("position", position).field(
                "size",
                Json::count(g.size),
            ).field("pull_requests", Json::numbers(&g.pull_requests)).done()
        },
    };
    let base: JsonObject = JsonObject::new().field("provider", Json::text(i.provider)).field(
        "preview",
        Json::Bool(i.preview),
    ).field("state", Json::text(&i.state)).field("local", local).field("github", github);
    let reasoned: JsonObject = match &i.reason {
        Some(t) => base.field("reason", Json::text(t)),
        None => base,
    };
    let all: JsonObject = match &i.error {
        Some(t) => reasoned.field("error", Json::text(t)),
        None => reasoned,
    };
    all.done()
}

/// The entry of a recorded branch in a listing, given the repository, what GitHub says of its
/// pull request, and its inspection, if there is one.
pub open spec fn entry_json(
    s: StackView,
    branch: Seq<char>,
    repo: Seq<char>,
    found: Option<(Seq<char>, bool)>,
    inspection: Option<InspectionView>,
) -> JsonView {
    let meta = s.branches[branch];
    let shown = match found {
        Some(x) => x,
        None => ("OPEN"@, false),
    };
    let base = no_fields().insert("branch"@, JsonView::Text(branch)).insert(
        "parent"@,
        JsonView::Text(meta.parent),
    ).insert("depth"@, JsonView::Number((s.path_to_trunk(branch).len() - 1) as u64)).insert(
        "pr_number"@,
        number_or_null(meta.pr_number),
    ).insert(
        "pr_url"@,
        match meta.pr_number {
            Some(n) => if repo.len() == 0 {
                JsonView::Null
            } else {
                JsonView::Text(
                    "https://github.com/"@ + repo + "/pull/"@ + decimal(n as nat),
                )
            },
            None => JsonView::Null,
        },
    ).insert(
        "pr_state"@,
        match meta.pr_number {
            Some(_) => JsonView::Text(shown.0),
            None => JsonView::Null,
        },
    ).insert("is_draft"@, JsonView::Bool(meta.pr_number is Some && shown.1)).insert(
        "children"@,
        text_list(ranked(children(s.branches, branch))),
    );
    JsonView::Object(
        match inspection {
            Some(i) => base.insert("native_stack"@, inspection_json(i)),
            None => base,
        },
    )
}

/// The entry of a recorded branch in a listing.
pub fn json_entry(
    state: &StackState,
    branch: &str,
    repo: &str,
    found: Option<(String, bool)>,
    inspection: Option<&NativeStackInspection>,
) -> (r: Result<Json, EzError>)
    ensures
        match r {
            Ok(j) => state@.managed(branch@) && j@ == entry_json(
                state@,
                branch@,
                repo@,
                match found {
                    Some(x) => Some((x.0@, x.1)),
                    None => None,
                },
                match inspection {
                    Some(i) => Some(i@),
                    None => None,
                },
            ),
            Err(e) => !state@.managed(branch@) && e@ == ErrorView::BranchNotInStack(branch@),
        },
{
    let meta = match state.get_branch(branch) {
        Ok(m) => m,
        Err(e) => {
            return Err(e);
        },
    };
    let kids: Vec<String> = state.children_of(branch);
    let ghost m = state@.branches;
    proof {
        assert forall|k: Seq<char>| #[trigger]
            views(kids@).contains(k) <==> children(m, branch@).contains(k) by {
            assert(views(kids@).contains(k) <==> is_child(m, branch@, k));
        }
        lemma_ranked(views(kids@), children(m, branch@));
    }
    let path: Vec<String> = state.path_to_trunk(branch);
    assert(views(path@).len() == path.len());
    assert(path.len() >= 1);
    let (shown_state, shown_draft): (String, bool) = match found {
        Some(x) => x,
        None => (String::from_str("OPEN"), false),
    };
    let url: Json = match meta.pr_number {
        Some(n) => if repo.is_empty() {
            Json::Null
        } else {
            Json::Text(
                String::from_str("https://github.com/").concat(repo).concat("/pull/").concat(
                    &number(n),
                ),
            )
        },
        None => Json::Null,
    };
    let pr_state: Json = match meta.pr_number {
        Some(_) => Json::Text(shown_state),
        None => Json::Null,
    };
    let base: JsonObject = JsonObject::new().field("branch", Json::text(branch)).field(
        "parent",
        Json::text(&meta.parent),
    ).field("depth", Json::count(path.len() - 1)).field(
        "pr_number",
        Json::opt_number(meta.pr_number),
    ).field("pr_url", url).field("pr_state", pr_state).field(
        "is_draft",
        Json::Bool(meta.pr_number.is_some() && shown_draft),
    ).field("children", Json::texts(&kids));
    let all: JsonObject = match inspection {
        Some(i) => base.field("native_stack", inspection_value(i)),
        None => base,
    };
    Ok(all.done())
}

/// Whether some row shows the branch.
pub open spec fn shows(s: Seq<RowView>, b: Seq<char>) -> bool {
    exists|i: int| 0 <= i < s.len() && (#[trigger] s[i]).branch == b
}

/// The first step of a way up from `root` to `b`.
proof fn lemma_first_step(m: Forest, root: Seq<char>, b: Seq<char>, n: nat) -> (c: Seq<char>)
    requires
        crate::stack::below(m, root, b, n),
    ensures
        is_child(m, root, c),
        c != root,
        c == b || (n > 0 && crate::stack::below(m, c, b, (n - 1) as nat)),
    decreases n,
{
    let p = m[b].parent;
    if p == root {
        b
    } else {
        let c = lemma_first_step(m, root, p, (n - 1) as nat);
        if c != b {
            if c == p {
                assert(crate::stack::below(m, c, b, 0));
                lemma_below_more(m, c, b, 0, (n - 1) as nat);
            } else {
                assert(crate::stack::below(m, c, b, (n - 1) as nat));
            }
        }
        c
    }
}

proof fn lemma_below_more(m: Forest, root: Seq<char>, b: Seq<char>, n: nat, k: nat)
    requires
        crate::stack::below(m, root, b, n),
        n <= k,
    ensures
        crate::stack::below(m, root, b, k),
    decreases n,
{
    if m[b].parent != root {
        lemma_below_more(m, root, m[b].parent, (n - 1) as nat, (k - 1) as nat);
    }
}

proof fn lemma_subtree_shows(m: Forest, row: RowView, n: nat, b: Seq<char>, k: nat)
    requires
        m.dom().finite(),
        b == row.branch || (crate::stack::below(m, row.branch, b, k) && k < n),
    ensures
        shows(subtree(m, row, n), b),
    decreases n, 0nat,
{
    let t = subtree(m, row, n);
    assert(t[0] == row);
    if b != row.branch {
        let kids = children(m, row.branch);
        let names = ranked(kids);
        assert(kids.subset_of(m.dom()));
        vstd::set_lib::lemma_set_subset_finite(m.dom(), kids);
        crate::names::lemma_ranked_exists(kids);
        let c = lemma_first_step(m, row.branch, b, k);
        assert(kids.contains(c));
        assert(names.contains(c));
        let i = choose|i: int| 0 <= i < names.len() && names[i] == c;
        let above = row.ancestors_last.push(row.is_last);
        lemma_siblings_show(
            m,
            names,
            row.depth + 1,
            above,
            (n - 1) as nat,
            names.len(),
            i,
            b,
            if c == b {
                0
            } else {
                (k - 1) as nat
            },
        );
        let s = siblings(m, names, row.depth + 1, above, (n - 1) as nat, names.len());
        let j = choose|j: int| 0 <= j < s.len() && (#[trigger] s[j]).branch == b;
        assert(t[j + 1] == s[j]);
    }
}

proof fn lemma_siblings_show(
    m: Forest,
    names: Seq<Seq<char>>,
    depth: nat,
    above: Seq<bool>,
    n: nat,
    k: nat,
    i: int,
    b: Seq<char>,
    steps: nat,
)
    requires
        m.dom().finite(),
        0 <= i < k <= names.len(),
        b == names[i] || (crate::stack::below(m, names[i], b, steps) && steps < n),
    ensures
        shows(siblings(m, names, depth, above, n, k), b),
    decreases n, k + 1,
{
    let s = siblings(m, names, depth, above, n, k);
    let low = siblings(m, names, depth, above, n, (k - 1) as nat);
    let row = RowView {
        branch: names[k - 1],
        depth,
        is_last: k == names.len(),
        ancestors_last: above,
    };
    if i == k - 1 {
        lemma_subtree_shows(m, row, n, b, steps);
        let t = subtree(m, row, n);
        let j = choose|j: int| 0 <= j < t.len() && (#[trigger] t[j]).branch == b;
        assert(s[low.len() + j] == t[j]);
    } else {
        lemma_siblings_show(m, names, depth, above, n, (k - 1) as nat, i, b, steps);
        let j = choose|j: int| 0 <= j < low.len() && (#[trigger] low[j]).branch == b;
        assert(s[j] == low[j]);
    }
}

/// The tree shows every branch that stands on the trunk.
pub proof fn law_tree_shows_every_branch(s: StackView, b: Seq<char>)
    requires
        s.branches.dom().finite(),
        crate::stack::descends(s.branches, s.trunk, b),
    ensures
        shows(tree_rows(s), b),
{
    let m = s.branches;
    let n = crate::stack::lemma_short_way(m, s.trunk, b);
    let kids = children(m, s.trunk);
    let names = ranked(kids);
    assert(kids.subset_of(m.dom()));
    vstd::set_lib::lemma_set_subset_finite(m.dom(), kids);
    crate::names::lemma_ranked_exists(kids);
    let c = lemma_first_step(m, s.trunk, b, n);
    assert(kids.contains(c));
    assert(names.contains(c));
    let i = choose|i: int| 0 <= i < names.len() && names[i] == c;
    lemma_siblings_show(
        m,
        names,
        1,
        Seq::empty(),
        m.len(),
        names.len(),
        i,
        b,
        if c == b {
            0
        } else {
            (n - 1) as nat
        },
    );
}

/// The entries of a listing: one for each branch on the trunk, parents first.
pub open spec fn entries_json(
    s: StackView,
    repo: Seq<char>,
    found: Map<Seq<char>, (String, bool)>,
    inspections: Map<Seq<char>, NativeStackInspection>,
) -> Seq<JsonView> {
    let order = topo(s.branches, s.trunk);
    Seq::new(
        order.len(),
        |i: int|
            entry_json(
                s,
                order[i],
                repo,
                if found.contains_key(order[i]) {
                    Some((found[order[i]].0@, found[order[i]].1))
                } else {
                    None
                },
                if inspections.contains_key(order[i]) {
                    Some(inspections[order[i]]@)
                } else {
                    None
                },
            ),
    )
}

/// The entries of a listing: one for each branch on the trunk, parents first. `found` holds the
/// state of pull requests and whether they are drafts, by branch.
pub fn run(
    state: &StackState,
    repo: &str,
    found: &NameMap<(String, bool)>,
    inspections: &NameMap<NativeStackInspection>,
) -> (r: Vec<Json>)
    ensures
        receipt_views(r@) == entries_json(state@, repo@, found@, inspections@),
{
    let order: Vec<String> = state.topo_order();
    let ghost names = topo(state@.branches, state@.trunk);
    let ghost all = entries_json(state@, repo@, found@, inspections@);
    let mut out: Vec<Json> = Vec::new();
    let mut i: usize = 0;
    assert(receipt_views(out@) =~= all.take(0));
    assert(views(order@).len() == order.len());
    while i < order.len()
        invariant
            i <= order.len(),
            names == topo(state@.branches, state@.trunk),
            names == views(order@),
            breadth_first(state@.branches, state@.trunk, names),
            all == entries_json(state@, repo@, found@, inspections@),
            all.len() == order.len(),
            receipt_views(out@) == all.take(i as int),
        decreases order.len() - i,
    {
        let ghost held = receipt_views(out@);
        let b: &String = &order[i];
        proof {
            assert(names[i as int] == b@);
            assert(names.contains(b@));
            assert(descends(state@.branches, state@.trunk, b@));
        }
        let shown: Option<(String, bool)> = match found.get(b) {
            Some(x) => Some((x.0.clone(), x.1)),
            None => None,
        };
        match json_entry(state, b, repo, shown, inspections.get(b)) {
            Ok(j) => {
                let ghost e = j@;
                out.push(j);
                proof {
                    assert(all[i as int] == e);
                    assert(receipt_views(out@) =~= held.push(e));
                    assert(all.take(i + 1) =~= all.take(i as int).push(all[i as int]));
                }
            },
            Err(_) => {
                assert(state@.managed(b@));
            },
        }
        i += 1;
    }
    assert(all.take(order.len() as int) =~= all);
    out
}

/// Whether a row stands one step under the row of its branch's parent.
pub open spec fn under(m: Forest, parent: RowView, r: RowView) -> bool {
    &&& m[r.branch].parent == parent.branch
    &&& r.depth == parent.depth + 1
    &&& r.ancestors_last == parent.ancestors_last.push(parent.is_last)
}

/// Whether a row's mark tells if its branch is the last child of its parent by name.
pub open spec fn told_last(m: Forest, r: RowView) -> bool {
    r.is_last <==> forall|d: Seq<char>| #[trigger]
        is_child(m, m[r.branch].parent, d) ==> d == r.branch || crate::text::lex_less(d, r.branch)
}

/// Each row of the tree shows a recorded branch: one on the trunk at the first depth, any other
/// below the row of its parent and one deeper; the last child of a parent by name is marked so.
pub proof fn law_rows_stand_under_their_parents(s: StackView, i: int)
    requires
        s.branches.dom().finite(),
        0 <= i < tree_rows(s).len(),
    ensures
        ({
            let rows = tree_rows(s);
            let r = rows[i];
            &&& s.branches.contains_key(r.branch)
            &&& (s.branches[r.branch].parent == s.trunk && r.depth == 1 && r.ancestors_last.len()
                == 0) || exists|j: int| 0 <= j < i && under(s.branches, #[trigger] rows[j], r)
            &&& told_last(s.branches, r)
        }),
{
    let roots = ranked(children(s.branches, s.trunk));
    lemma_siblings_stand(
        s.branches,
        s.trunk,
        1,
        Seq::empty(),
        s.branches.len(),
        roots.len(),
    );
    assert(stands(s.branches, tree_rows(s), i, s.trunk, 1, Seq::empty()));
}

spec fn stands(
    m: Forest,
    rows: Seq<RowView>,
    i: int,
    p: Seq<char>,
    depth: nat,
    above: Seq<bool>,
) -> bool {
    let r = rows[i];
    &&& m.contains_key(r.branch)
    &&& told_last(m, r)
    &&& (m[r.branch].parent == p && r.depth == depth && r.ancestors_last == above) || exists|j: int|
        0 <= j < i && under(m, #[trigger] rows[j], r)
}

proof fn lemma_subtree_stands(m: Forest, row: RowView, n: nat)
    requires
        m.dom().finite(),
    ensures
        subtree(m, row, n).len() > 0,
        subtree(m, row, n)[0] == row,
        forall|i: int|
            #![trigger subtree(m, row, n)[i]]
            1 <= i < subtree(m, row, n).len() ==> {
                let rows = subtree(m, row, n);
                &&& m.contains_key(rows[i].branch)
                &&& told_last(m, rows[i])
                &&& exists|j: int| 0 <= j < i && under(m, #[trigger] rows[j], rows[i])
            },
    decreases n, 0nat,
{
    let rows = subtree(m, row, n);
    assert(rows[0] == row);
    if n > 0 {
        let names = ranked(children(m, row.branch));
        let above = row.ancestors_last.push(row.is_last);
        let low = siblings(m, names, row.depth + 1, above, (n - 1) as nat, names.len());
        lemma_siblings_stand(m, row.branch, row.depth + 1, above, (n - 1) as nat, names.len());
        assert(rows =~= seq![row] + low);
        assert forall|i: int| #![trigger rows[i]] 1 <= i < rows.len() implies {
            &&& m.contains_key(rows[i].branch)
            &&& told_last(m, rows[i])
            &&& exists|j: int| 0 <= j < i && under(m, #[trigger] rows[j], rows[i])
        } by {
            assert(rows[i] == low[i - 1]);
            assert(stands(m, low, i - 1, row.branch, row.depth + 1, above));
            if exists|j: int| 0 <= j < i - 1 && under(m, #[trigger] low[j], low[i - 1]) {
                let j = choose|j: int| 0 <= j < i - 1 && under(m, #[trigger] low[j], low[i - 1]);
                assert(rows[j + 1] == low[j]);
                assert(under(m, rows[j + 1], rows[i]));
            } else {
                assert(under(m, rows[0], rows[i]));
            }
        }
    }
}

proof fn lemma_siblings_stand(
    m: Forest,
    p: Seq<char>,
    depth: nat,
    above: Seq<bool>,
    n: nat,
    k: nat,
)
    requires
        m.dom().finite(),
        k <= ranked(children(m, p)).len(),
    ensures
        ({
            let rows = siblings(m, ranked(children(m, p)), depth, above, n, k);
            forall|i: int|
                0 <= i < rows.len() ==> #[trigger] stands(m, rows, i, p, depth, above)
        }),
    decreases n, k + 1,
{
    let kids = children(m, p);
    let names = ranked(kids);
    assert(kids.subset_of(m.dom()));
    vstd::set_lib::lemma_set_subset_finite(m.dom(), kids);
    crate::names::lemma_ranked_exists(kids);
    let rows = siblings(m, names, depth, above, n, k);
    if k > 0 {
        let low = siblings(m, names, depth, above, n, (k - 1) as nat);
        let row = RowView {
            branch: names[k - 1],
            depth,
            is_last: k == names.len(),
            ancestors_last: above,
        };
        let more = subtree(m, row, n);
        lemma_siblings_stand(m, p, depth, above, n, (k - 1) as nat);
        lemma_subtree_stands(m, row, n);
        assert(rows =~= low + more);
        assert(names.contains(names[k - 1]));
        assert(is_child(m, p, names[k - 1]));
        assert(told_last(m, row)) by {
            if k == names.len() {
                assert forall|d: Seq<char>| #[trigger] is_child(m, p, d) implies d == row.branch
                    || crate::text::lex_less(d, row.branch) by {
                    assert(kids.contains(d));
                    assert(names.contains(d));
                    let q = choose|q: int| 0 <= q < names.len() && names[q] == d;
                }
            } else {
                let d = names[k as int];
                assert(names.contains(d));
                assert(is_child(m, p, d));
                assert(crate::text::lex_less(names[k - 1], names[k as int]));
                crate::text::lex_less_total(row.branch, d);
            }
        }
        assert forall|i: int| 0 <= i < rows.len() implies #[trigger] stands(
            m,
            rows,
            i,
            p,
            depth,
            above,
        ) by {
            if i < low.len() {
                assert(rows[i] == low[i]);
                assert(stands(m, low, i, p, depth, above));
                if exists|j: int| 0 <= j < i && under(m, #[trigger] low[j], low[i]) {
                    let j = choose|j: int| 0 <= j < i && under(m, #[trigger] low[j], low[i]);
                    assert(rows[j] == low[j]);
                    assert(under(m, rows[j], rows[i]));
                }
            } else {
                let at = i - low.len();
                assert(rows[i] == more[at]);
                if at > 0 {
                    let j = choose|j: int| 0 <= j < at && under(m, #[trigger] more[j], more[at]);
                    assert(rows[low.len() + j] == more[j]);
                    assert(under(m, rows[low.len() + j], rows[i]));
                }
            }
        }
    }
}

/// A pull request is shown only where one is recorded, with what GitHub told of it, and as open
/// where it told nothing.
pub proof fn law_recorded_pull_request_is_shown(recorded: Option<u64>, found: Option<PrInfo>)
    ensures
        pr_shown(recorded, found) is Some <==> recorded is Some,
        pr_shown(recorded, found) matches Some((number, state, is_draft, _)) ==> {
            &&& found is Some ==> number == found->0.number && state == found->0.state@ && is_draft
                == found->0.is_draft
            &&& found is None ==> Some(number) == recorded && state == "OPEN"@ && !is_draft
        },
{
}

/// Only worktrees in the directory for them count as a branch's own.
pub proof fn law_own_worktrees_lie_in_their_directory(
    s: Seq<WorktreeInfo>,
    w: WorktreeInfo,
    k: Seq<char>,
)
    ensures
        w.branch is None || !occurs(w.path@, "/.worktrees/"@) ==> own_worktrees(s.push(w))
            == own_worktrees(s),
        w.branch matches Some(b) ==> (occurs(w.path@, "/.worktrees/"@) ==> own_worktrees(
            s.push(w),
        ).contains_key(b@) && own_worktrees(s.push(w))[b@] == w.path@),
        w.branch matches Some(b) ==> (b@ != k ==> (own_worktrees(s.push(w)).contains_key(k)
            <==> own_worktrees(s).contains_key(k)) && own_worktrees(s.push(w))[k]
            == own_worktrees(s)[k]),
{
    assert(s.push(w).drop_last() =~= s);
}

/// An entry of the log names the branch, its recorded parent, pull request and children, and how
/// many steps it stands above the end of its path.
pub proof fn law_entry_tells_the_branch(
    s: StackView,
    branch: Seq<char>,
    repo: Seq<char>,
    found: Option<(Seq<char>, bool)>,
    inspection: Option<InspectionView>,
)
    ensures
        entry_json(s, branch, repo, found, inspection) matches JsonView::Object(m) && {
            &&& m["branch"@] == JsonView::Text(branch)
            &&& m["parent"@] == JsonView::Text(s.branches[branch].parent)
            &&& m["depth"@] == JsonView::Number((s.path_to_trunk(branch).len() - 1) as u64)
            &&& s.branches[branch].pr_number matches Some(n) ==> m["pr_number"@] == JsonView::Number(n)
            &&& s.branches[branch].pr_number is None ==> m["pr_number"@] == JsonView::Null && m["pr_state"@] == JsonView::Null && m["is_draft"@] == JsonView::Bool(false)
            &&& m["children"@] == text_list(ranked(children(s.branches, branch)))
            &&& m.contains_key("native_stack"@) <==> inspection is Some
        },
{
    reveal_strlit("branch");
    reveal_strlit("parent");
    reveal_strlit("depth");
    reveal_strlit("pr_number");
    reveal_strlit("pr_url");
    reveal_strlit("pr_state");
    reveal_strlit("is_draft");
    reveal_strlit("children");
    reveal_strlit("native_stack");
    assert("branch"@.len() == 6);
    assert("parent"@.len() == 6);
    assert("depth"@.len() == 5);
    assert("pr_number"@.len() == 9);
    assert("pr_url"@.len() == 6);
    assert("pr_state"@.len() == 8);
    assert("is_draft"@.len() == 8);
    assert("children"@.len() == 8);
    assert("native_stack"@.len() == 12);
    assert("branch"@[0] == 'b');
    assert("parent"@[0] == 'p');
    assert("pr_url"@[0] == 'p');
    assert("parent"@[1] == 'a');
    assert("pr_url"@[1] == 'r');
    assert("pr_state"@[0] == 'p');
    assert("is_draft"@[0] == 'i');
    assert("children"@[0] == 'c');
}

} // verus!
