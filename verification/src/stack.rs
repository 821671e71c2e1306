//! The metadata of a repository's stacks.

use crate::branch_map::{
    is_child, opt_views, BranchMap, BranchMeta, MetaView,
    ScopeMode,
};
use crate::error::{ErrorView, EzError};
use crate::names::{lemma_sorted_distinct};
use crate::text::{copy_opt, lex_less, lex_less_total, opt_view, same, sorted, views};
use vstd::prelude::*;
use vstd::string::*;

verus! {

/// The recorded branches by name.
pub type Forest = Map<Seq<char>, MetaView>;

/// Settings and recorded branches of a repository.
#[derive(Debug)]
pub struct StackState {
    pub trunk: String,
    pub remote: String,
    pub default_from: Option<String>,
    pub repo: Option<String>,
    pub upstream_remote: Option<String>,
    pub fork_repo: Option<String>,
    pub draft: Option<bool>,
    pub no_pr: Option<bool>,
    pub rerere: Option<bool>,
    pub branches: BranchMap,
}

/// The contents of a `StackState`.
#[verifier::ext_equal]
pub struct StackView {
    pub trunk: Seq<char>,
    pub remote: Seq<char>,
    pub default_from: Option<Seq<char>>,
    pub repo: Option<Seq<char>>,
    pub upstream_remote: Option<Seq<char>>,
    pub fork_repo: Option<Seq<char>>,
    pub draft: Option<bool>,
    pub no_pr: Option<bool>,
    pub rerere: Option<bool>,
    pub branches: Forest,
}

impl View for StackState {
    type V = StackView;

    open spec fn view(&self) -> StackView {
        StackView {
            trunk: self.trunk@,
            remote: self.remote@,
            default_from: opt_view(self.default_from),
            repo: opt_view(self.repo),
            upstream_remote: opt_view(self.upstream_remote),
            fork_repo: opt_view(self.fork_repo),
            draft: self.draft,
            no_pr: self.no_pr,
            rerere: self.rerere,
            branches: self.branches@,
        }
    }
}

/// Whether at most `n + 1` parent steps lead from the recorded branch `b` down to `root`, over
/// recorded branches other than `root`.
pub open spec fn below(m: Forest, root: Seq<char>, b: Seq<char>, n: nat) -> bool
    decreases n,
{
    &&& b != root
    &&& m.contains_key(b)
    &&& m[b].parent == root || (n > 0 && below(m, root, m[b].parent, (n - 1) as nat))
}

/// Whether parent steps lead from `b` down to `root`.
pub open spec fn descends(m: Forest, root: Seq<char>, b: Seq<char>) -> bool {
    exists|n: nat| below(m, root, b, n)
}

/// `pos` gives, for each branch of `s`, where its parent stands in `s` (`-1` for `root`):
/// always before the branch. Branches are in the order of their parents' places, and those
/// with one parent in the order of their names.
pub open spec fn laid_out(m: Forest, root: Seq<char>, s: Seq<Seq<char>>, pos: Seq<int>) -> bool {
    &&& pos.len() == s.len()
    &&& forall|a: int|
        0 <= a < s.len() ==> -1 <= #[trigger] pos[a] < a && m[s[a]].parent == (if pos[a] < 0 {
            root
        } else {
            s[pos[a]]
        })
    &&& forall|a: int, b: int|
        0 <= a < b < s.len() ==> #[trigger] pos[a] < #[trigger] pos[b] || (pos[a] == pos[b]
            && lex_less(s[a], s[b]))
}

/// `s` lists each descendant of `root` once, level by level: parents before children, and the
/// children of one branch by name.
pub open spec fn breadth_first(m: Forest, root: Seq<char>, s: Seq<Seq<char>>) -> bool {
    &&& s.no_duplicates()
    &&& forall|b: Seq<char>| #[trigger] s.contains(b) <==> descends(m, root, b)
    &&& exists|pos: Seq<int>| laid_out(m, root, s, pos)
}

/// The descendants of `root` level by level.
pub open spec fn topo(m: Forest, root: Seq<char>) -> Seq<Seq<char>> {
    choose|s: Seq<Seq<char>>| breadth_first(m, root, s)
}

/// Only one sequence lists the descendants of a branch level by level.
pub proof fn lemma_topo_unique(m: Forest, root: Seq<char>, s: Seq<Seq<char>>)
    requires
        breadth_first(m, root, s),
    ensures
        topo(m, root) == s,
{
    let t = topo(m, root);
    let ps = choose|pos: Seq<int>| laid_out(m, root, s, pos);
    let pt = choose|pos: Seq<int>| laid_out(m, root, t, pos);
    s.unique_seq_to_set();
    t.unique_seq_to_set();
    assert(s.to_set() =~= t.to_set());
    lemma_same_prefix(m, root, s, ps, t, pt, s.len() as int);
    assert(s =~= t);
}

proof fn lemma_same_prefix(
    m: Forest,
    root: Seq<char>,
    s: Seq<Seq<char>>,
    ps: Seq<int>,
    t: Seq<Seq<char>>,
    pt: Seq<int>,
    k: int,
)
    requires
        breadth_first(m, root, s),
        breadth_first(m, root, t),
        laid_out(m, root, s, ps),
        laid_out(m, root, t, pt),
        s.len() == t.len(),
        0 <= k <= s.len(),
    ensures
        forall|i: int| 0 <= i < k ==> s[i] == t[i],
    decreases k,
{
    if k > 0 {
        let i = k - 1;
        lemma_same_prefix(m, root, s, ps, t, pt, i);
        assert(s.contains(s[i]));
        assert(t.contains(t[i]));
        assert(t.contains(s[i]));
        assert(s.contains(t[i]));
        let j = choose|j: int| 0 <= j < t.len() && t[j] == s[i];
        let h = choose|h: int| 0 <= h < s.len() && s[h] == t[i];
        assert(j >= i) by {
            if j < i {
                assert(s[j] == t[j]);
            }
        }
        assert(h >= i) by {
            if h < i {
                assert(s[h] == t[h]);
            }
        }
        assert(!s.contains(root) && !t.contains(root)) by {
            if descends(m, root, root) {
                let n = choose|n: nat| below(m, root, root, n);
            }
        }
        lemma_same_place(m, root, s, ps, t, pt, i, i, j);
        lemma_same_place(m, root, t, pt, s, ps, i, i, h);
        lex_less_total(s[i], t[i]);
    }
}

/// A branch whose parent stands in the common part has the parent at one place in both.
proof fn lemma_same_place(
    m: Forest,
    root: Seq<char>,
    s: Seq<Seq<char>>,
    ps: Seq<int>,
    t: Seq<Seq<char>>,
    pt: Seq<int>,
    k: int,
    i: int,
    j: int,
)
    requires
        laid_out(m, root, s, ps),
        laid_out(m, root, t, pt),
        t.no_duplicates(),
        !s.contains(root),
        !t.contains(root),
        0 <= i <= k,
        i < s.len(),
        k <= s.len(),
        k <= t.len(),
        forall|a: int| 0 <= a < k ==> s[a] == t[a],
        0 <= j < t.len(),
        s[i] == t[j],
    ensures
        ps[i] == pt[j],
{
    let a = ps[i];
    let b = pt[j];
    if a >= 0 {
        assert(s.contains(s[a]));
        assert(s[a] == t[a]);
    }
    if b >= 0 {
        assert(t.contains(t[b]));
    }
}

/// The branches from `b` down along parents, ending at the trunk, at a name that is not
/// recorded, or after `n` steps.
pub open spec fn path_down(m: Forest, trunk: Seq<char>, b: Seq<char>, n: nat) -> Seq<Seq<char>>
    decreases n,
{
    if b == trunk || !m.contains_key(b) || n == 0 {
        seq![b]
    } else {
        seq![b] + path_down(m, trunk, m[b].parent, (n - 1) as nat)
    }
}

/// The last branch above the trunk on the way down from `b`, in at most `n` steps.
pub open spec fn lowest(m: Forest, trunk: Seq<char>, b: Seq<char>, n: nat) -> Seq<char>
    decreases n,
{
    if !m.contains_key(b) || m[b].parent == trunk || n == 0 {
        b
    } else {
        lowest(m, trunk, m[b].parent, (n - 1) as nat)
    }
}

/// Whether `c` is the first child of `p` by name.
pub open spec fn first_child(m: Forest, p: Seq<char>, c: Seq<char>) -> bool {
    &&& is_child(m, p, c)
    &&& forall|d: Seq<char>| #[trigger] is_child(m, p, d) ==> d == c || lex_less(c, d)
}

/// Whether nothing is stacked on `p`.
pub open spec fn childless(m: Forest, p: Seq<char>) -> bool {
    forall|d: Seq<char>| !#[trigger] is_child(m, p, d)
}

/// Whether following first children up from `b`, at most `n` times, leads to `t`, which is
/// childless unless all `n` steps were taken.
pub open spec fn tops(m: Forest, b: Seq<char>, t: Seq<char>, n: nat) -> bool
    decreases n,
{
    if n == 0 || childless(m, b) {
        t == b
    } else {
        exists|c: Seq<char>| #[trigger] first_child(m, b, c) && tops(m, c, t, (n - 1) as nat)
    }
}

/// Whether `c` is the only child of `p`.
pub open spec fn only_child(m: Forest, p: Seq<char>, c: Seq<char>) -> bool {
    &&& is_child(m, p, c)
    &&& forall|d: Seq<char>| #[trigger] is_child(m, p, d) ==> d == c
}

/// Whether `up` is the line of only children above `b`, ending at a childless branch or after
/// `n` steps.
pub open spec fn climbs(m: Forest, b: Seq<char>, up: Seq<Seq<char>>, n: nat) -> bool
    decreases n,
{
    if n == 0 || childless(m, b) {
        up.len() == 0
    } else {
        &&& up.len() > 0
        &&& only_child(m, b, up[0])
        &&& climbs(m, up[0], up.drop_first(), (n - 1) as nat)
    }
}

/// Whether `f` is the first branch at or above `b` with several children, found in fewer than
/// `n` steps over only children.
pub open spec fn forks_at(m: Forest, b: Seq<char>, f: Seq<char>, n: nat) -> bool
    decreases n,
{
    &&& n > 0
    &&& !childless(m, b)
    &&& if exists|c: Seq<char>| only_child(m, b, c) {
        exists|c: Seq<char>| #[trigger] only_child(m, b, c) && forks_at(m, c, f, (n - 1) as nat)
    } else {
        f == b
    }
}

/// What is reported where a stack forks.
pub open spec fn fork_text(b: Seq<char>) -> Seq<char> {
    "`"@ + b + "` has more than one child, so the stack above it is not a single line"@
}

impl StackView {
    /// Whether the branch is recorded.
    pub open spec fn managed(self, b: Seq<char>) -> bool {
        self.branches.contains_key(b)
    }

    /// The remote that the trunk is fetched from.
    pub open spec fn fetch_remote(self) -> Seq<char> {
        match self.upstream_remote {
            Some(r) => r,
            None => self.remote,
        }
    }

    /// Whether branches are pushed elsewhere than pull requests are opened.
    pub open spec fn fork_workflow_with(
        self,
        remote: Seq<char>,
        repo: Option<Seq<char>>,
        fork_repo: Option<Seq<char>>,
    ) -> bool {
        ||| (self.upstream_remote matches Some(u) && u != remote)
        ||| (fork_repo is Some && fork_repo != repo)
    }

    /// Whether the recorded settings describe a fork workflow.
    pub open spec fn is_fork_workflow(self) -> bool {
        self.fork_workflow_with(self.remote, self.repo, self.fork_repo)
    }

    /// The branches from `b` down to the trunk.
    pub open spec fn path_to_trunk(self, b: Seq<char>) -> Seq<Seq<char>> {
        path_down(self.branches, self.trunk, b, self.branches.len())
    }

    /// Whether `line` runs from the branch right above the trunk up to `b`, and on over only
    /// children to the top.
    pub open spec fn is_line(self, b: Seq<char>, line: Seq<Seq<char>>) -> bool {
        exists|up: Seq<Seq<char>>|
            #[trigger] climbs(self.branches, b, up, self.branches.len()) && line == self.path_to_trunk(
                b,
            ).drop_last().reverse() + up
    }

    /// The same settings with other branches.
    pub open spec fn with_branches(self, m: Forest) -> StackView {
        StackView { branches: m, ..self }
    }
}

proof fn lemma_path_nonempty(m: Forest, trunk: Seq<char>, b: Seq<char>, n: nat)
    ensures
        path_down(m, trunk, b, n).len() > 0,
{
}

/// Whether every child of `p` but `root` stands in `s`.
spec fn listed(m: Forest, root: Seq<char>, p: Seq<char>, s: Seq<Seq<char>>) -> bool {
    forall|k: Seq<char>| #[trigger] is_child(m, p, k) && k != root ==> s.contains(k)
}

proof fn lemma_listed_grows(
    m: Forest,
    root: Seq<char>,
    p: Seq<char>,
    s: Seq<Seq<char>>,
    t: Seq<Seq<char>>,
)
    requires
        listed(m, root, p, s),
        s.len() <= t.len(),
        s == t.take(s.len() as int),
    ensures
        listed(m, root, p, t),
{
    assert forall|k: Seq<char>| #[trigger] is_child(m, p, k) && k != root implies t.contains(k) by {
        assert(s.contains(k));
        let z = choose|z: int| 0 <= z < s.len() && s[z] == k;
        assert(t[z] == k);
    }
}

/// Distinct recorded branches are no more than there are records.
proof fn lemma_within(m: Forest, s: Seq<Seq<char>>)
    requires
        m.dom().finite(),
        s.no_duplicates(),
        forall|a: int| 0 <= a < s.len() ==> m.contains_key(#[trigger] s[a]),
    ensures
        s.len() <= m.len(),
{
    s.unique_seq_to_set();
    vstd::set_lib::lemma_len_subset(s.to_set(), m.dom());
}

/// What `root` and the branches of `s` already list, `s` holds.
proof fn lemma_all_listed(m: Forest, root: Seq<char>, s: Seq<Seq<char>>, b: Seq<char>, n: nat)
    requires
        below(m, root, b, n),
        listed(m, root, root, s),
        forall|a: int| 0 <= a < s.len() ==> listed(m, root, #[trigger] s[a], s),
    ensures
        s.contains(b),
    decreases n,
{
    let p = m[b].parent;
    assert(is_child(m, p, b));
    if p != root {
        lemma_all_listed(m, root, s, p, (n - 1) as nat);
        let z = choose|z: int| 0 <= z < s.len() && s[z] == p;
        assert(listed(m, root, s[z], s));
    }
}

/// A child of the branch whose children are being listed is new, and descends from `root`.
proof fn lemma_new_child(
    m: Forest,
    root: Seq<char>,
    s: Seq<Seq<char>>,
    pos: Seq<int>,
    i: int,
    at: Seq<char>,
    kid: Seq<char>,
)
    requires
        laid_out(m, root, s, pos),
        s.no_duplicates(),
        0 <= i <= s.len(),
        at == (if i == 0 {
            root
        } else {
            s[i - 1]
        }),
        is_child(m, at, kid),
        kid != root,
        forall|b: Seq<char>| #[trigger] s.contains(b) ==> descends(m, root, b),
    ensures
        descends(m, root, kid),
{
    if i == 0 {
        assert(below(m, root, kid, 0));
    } else {
        assert(s.contains(at));
        let n = choose|n: nat| below(m, root, at, n);
        assert(below(m, root, kid, (n + 1) as nat));
    }
}

/// Listing the next child keeps the order.
proof fn lemma_new_child_order(
    m: Forest,
    root: Seq<char>,
    s: Seq<Seq<char>>,
    pos: Seq<int>,
    i: int,
    at: Seq<char>,
    kid: Seq<char>,
)
    requires
        laid_out(m, root, s, pos),
        s.no_duplicates(),
        0 <= i <= s.len(),
        at == (if i == 0 {
            root
        } else {
            s[i - 1]
        }),
        is_child(m, at, kid),
        kid != root,
        forall|a: int| 0 <= a < pos.len() ==> #[trigger] pos[a] <= i - 1,
        forall|a: int| 0 <= a < s.len() && pos[a] == i - 1 ==> lex_less(#[trigger] s[a], kid),
        forall|b: Seq<char>| #[trigger] s.contains(b) ==> descends(m, root, b),
    ensures
        laid_out(m, root, s.push(kid), pos.push(i - 1)),
        s.push(kid).no_duplicates(),
{
    let t = s.push(kid);
    let tp = pos.push(i - 1);
    assert forall|a: int| 0 <= a < t.len() implies -1 <= #[trigger] tp[a] < a && m[t[a]].parent == (
    if tp[a] < 0 {
        root
    } else {
        t[tp[a]]
    }) by {
        if a < s.len() {
            assert(tp[a] == pos[a]);
        }
    }
    assert forall|a: int, b: int| 0 <= a < b < t.len() implies #[trigger] tp[a] < #[trigger] tp[b]
        || (tp[a] == tp[b] && lex_less(t[a], t[b])) by {
        assert(tp[a] == pos[a]);
        assert(t[a] == s[a]);
        if b < s.len() {
            assert(tp[b] == pos[b]);
        }
    }
    if s.contains(kid) {
        let z = choose|z: int| 0 <= z < s.len() && s[z] == kid;
        lex_less_total(kid, kid);
        assert(pos[z] < i - 1);
        if pos[z] < 0 {
            // The parent is the root, so `at` is the root, and stands in `s`.
            assert(s.contains(at));
            let n = choose|n: nat| below(m, root, at, n);
            assert(false);
        } else {
            assert(s[pos[z]] == at);
            assert(s[i - 1] == at);
        }
    }
}

/// The record of a freshly added branch.
pub open spec fn fresh_meta(
    parent: Seq<char>,
    parent_head: Seq<char>,
    scope: Option<Seq<Seq<char>>>,
    scope_mode: Option<ScopeMode>,
) -> MetaView {
    MetaView { parent, parent_head, pr_number: None, scope, scope_mode }
}

/// `m` with the branches of `moved` stacked on `parent`; everything else recorded of them stays.
pub open spec fn reparented(m: Forest, moved: Set<Seq<char>>, parent: Seq<char>) -> Forest {
    Map::new(
        |k: Seq<char>| m.contains_key(k),
        |k: Seq<char>|
            if moved.contains(k) {
                MetaView { parent: parent, ..m[k] }
            } else {
                m[k]
            },
    )
}

/// The branches stacked directly on `p`.
pub open spec fn children(m: Forest, p: Seq<char>) -> Set<Seq<char>> {
    Set::new(|k: Seq<char>| is_child(m, p, k))
}

impl StackState {
    /// No branches on `trunk`, with the default settings.
    pub fn new(trunk: String) -> (r: StackState)
        ensures
            r@ == (StackView {
                trunk: trunk@,
                remote: "origin"@,
                default_from: None,
                repo: None,
                upstream_remote: None,
                fork_repo: None,
                draft: None,
                no_pr: None,
                rerere: None,
                branches: Map::empty(),
            }),
    {
        StackState {
            trunk,
            remote: String::from_str("origin"),
            default_from: None,
            repo: None,
            upstream_remote: None,
            fork_repo: None,
            draft: None,
            no_pr: None,
            rerere: None,
            branches: BranchMap::new(),
        }
    }

    /// A copy of the state.
    pub fn copy(&self) -> (r: StackState)
        ensures
            r@ == self@,
    {
        StackState {
            trunk: self.trunk.clone(),
            remote: self.remote.clone(),
            default_from: copy_opt(&self.default_from),
            repo: copy_opt(&self.repo),
            upstream_remote: copy_opt(&self.upstream_remote),
            fork_repo: copy_opt(&self.fork_repo),
            draft: self.draft,
            no_pr: self.no_pr,
            rerere: self.rerere,
            branches: self.branches.copy(),
        }
    }

    /// Whether `branch` is the trunk.
    pub fn is_trunk(&self, branch: &str) -> (r: bool)
        ensures
            r == (branch@ == self@.trunk),
    {
        same(branch, &self.trunk)
    }

    /// Whether `branch` is recorded.
    pub fn is_managed(&self, branch: &str) -> (r: bool)
        ensures
            r == self@.managed(branch@),
    {
        self.branches.contains_key(branch)
    }

    /// The record of a branch.
    pub fn get_branch(&self, branch: &str) -> (r: Result<&BranchMeta, EzError>)
        ensures
            match r {
                Ok(m) => self@.managed(branch@) && m@ == self@.branches[branch@] && m.name@
                    == branch@,
                Err(e) => !self@.managed(branch@) && e@ == ErrorView::BranchNotInStack(branch@),
            },
    {
        match self.branches.get(branch) {
            Some(m) => Ok(m),
            None => Err(EzError::BranchNotInStack(branch.to_owned())),
        }
    }

    /// Replaces the record of a branch; its name stays.
    fn update(&mut self, branch: &str, meta: BranchMeta)
        requires
            meta.name@ == branch@,
        ensures
            final(self)@ == old(self)@.with_branches(
                old(self)@.branches.insert(branch@, meta@),
            ),
    {
        self.branches.insert(meta);
    }

    /// Records another parent and parent commit for a branch.
    pub fn set_parent(&mut self, branch: &str, parent: &str, parent_head: &str) -> (r: Result<
        (),
        EzError,
    >)
        ensures
            match r {
                Ok(_) => old(self)@.managed(branch@) && final(self)@ == old(self)@.with_branches(
                    old(self)@.branches.insert(
                        branch@,
                        MetaView {
                            parent: parent@,
                            parent_head: parent_head@,
                            ..old(self)@.branches[branch@]
                        },
                    ),
                ),
                Err(e) => !old(self)@.managed(branch@) && final(self)@ == old(self)@ && e@
                    == ErrorView::BranchNotInStack(branch@),
            },
    {
        match self.branches.get(branch) {
            Some(m) => {
                let mut meta = m.copy();
                meta.parent = parent.to_owned();
                meta.parent_head = parent_head.to_owned();
                self.update(branch, meta);
                Ok(())
            },
            None => Err(EzError::BranchNotInStack(branch.to_owned())),
        }
    }

    /// Records the pull request of a branch.
    pub fn set_pr_number(&mut self, branch: &str, pr_number: Option<u64>) -> (r: Result<
        (),
        EzError,
    >)
        ensures
            match r {
                Ok(_) => old(self)@.managed(branch@) && final(self)@ == old(self)@.with_branches(
                    old(self)@.branches.insert(
                        branch@,
                        MetaView { pr_number: pr_number, ..old(self)@.branches[branch@] },
                    ),
                ),
                Err(e) => !old(self)@.managed(branch@) && final(self)@ == old(self)@ && e@
                    == ErrorView::BranchNotInStack(branch@),
            },
    {
        match self.branches.get(branch) {
            Some(m) => {
                let mut meta = m.copy();
                meta.pr_number = pr_number;
                self.update(branch, meta);
                Ok(())
            },
            None => Err(EzError::BranchNotInStack(branch.to_owned())),
        }
    }

    /// Records a branch without a pull request, in place of any earlier record of it.
    pub fn add_branch(
        &mut self,
        name: &str,
        parent: &str,
        parent_head: &str,
        scope: Option<Vec<String>>,
        scope_mode: Option<ScopeMode>,
    )
        ensures
            final(self)@ == old(self)@.with_branches(
                old(self)@.branches.insert(
                    name@,
                    fresh_meta(parent@, parent_head@, opt_views(scope), scope_mode),
                ),
            ),
    {
        let meta = BranchMeta {
            name: name.to_owned(),
            parent: parent.to_owned(),
            parent_head: parent_head.to_owned(),
            pr_number: None,
            scope,
            scope_mode,
        };
        self.branches.insert(meta);
    }

    /// Forgets a branch.
    pub fn remove_branch(&mut self, name: &str)
        ensures
            final(self)@ == old(self)@.with_branches(old(self)@.branches.remove(name@)),
    {
        self.branches.remove(name);
    }

    /// The branches stacked directly on `branch`, by name.
    pub fn children_of(&self, branch: &str) -> (r: Vec<String>)
        ensures
            sorted(views(r@)),
            forall|k: Seq<char>| #[trigger]
                views(r@).contains(k) <==> is_child(self@.branches, branch@, k),
    {
        self.branches.children(branch)
    }

    /// The remote that the trunk is fetched from: the upstream remote where one is set.
    pub fn fetch_remote(&self) -> (r: String)
        ensures
            r@ == self@.fetch_remote(),
    {
        match &self.upstream_remote {
            Some(r) => r.clone(),
            None => self.remote.clone(),
        }
    }

    /// Whether the given settings describe a fork workflow: branches are pushed to a remote or
    /// repository other than the one where pull requests are opened.
    pub fn is_fork_workflow_with(
        &self,
        remote: &str,
        repo: Option<&str>,
        fork_repo: Option<&str>,
    ) -> (r: bool)
        ensures
            r == self@.fork_workflow_with(
                remote@,
                match repo {
                    Some(x) => Some(x@),
                    None => None,
                },
                match fork_repo {
                    Some(x) => Some(x@),
                    None => None,
                },
            ),
    {
        let elsewhere: bool = match &self.upstream_remote {
            Some(u) => !same(u, remote),
            None => false,
        };
        if elsewhere {
            return true;
        }
        match (fork_repo, repo) {
            (Some(f), Some(r)) => !same(f, r),
            (Some(_), None) => true,
            (None, _) => false,
        }
    }

    /// Whether the recorded settings describe a fork workflow.
    pub fn is_fork_workflow(&self) -> (r: bool)
        ensures
            r == self@.is_fork_workflow(),
    {
        let repo: Option<&str> = match &self.repo {
            Some(x) => Some(x.as_str()),
            None => None,
        };
        let fork_repo: Option<&str> = match &self.fork_repo {
            Some(x) => Some(x.as_str()),
            None => None,
        };
        self.is_fork_workflow_with(&self.remote, repo, fork_repo)
    }

    /// The branches from `branch` down to the trunk, both ends included.
    pub fn path_to_trunk(&self, branch: &str) -> (r: Vec<String>)
        ensures
            views(r@) == self@.path_to_trunk(branch@),
    {
        let mut out: Vec<String> = Vec::new();
        let mut at: String = branch.to_owned();
        let mut left: usize = self.branches.len();
        let ghost whole = self@.path_to_trunk(branch@);
        assert(views(out@) =~= Seq::<Seq<char>>::empty());
        loop
            invariant_except_break
                whole == views(out@) + path_down(self@.branches, self@.trunk, at@, left as nat),
            ensures
                views(out@) == whole,
            decreases left,
        {
            let ghost held = views(out@);
            out.push(at.clone());
            assert(views(out@) =~= held.push(at@));
            if self.is_trunk(&at) || left == 0 {
                assert(views(out@) =~= whole);
                break;
            }
            match self.branches.get(&at) {
                None => {
                    assert(views(out@) =~= whole);
                    break;
                },
                Some(m) => {
                    at = m.parent.clone();
                    left -= 1;
                    assert(whole =~= views(out@) + path_down(
                        self@.branches,
                        self@.trunk,
                        at@,
                        left as nat,
                    ));
                },
            }
        }
        out
    }

    /// The lowest branch of the stack that holds `branch`: the one right above the trunk.
    pub fn stack_bottom(&self, branch: &str) -> (r: String)
        ensures
            r@ == lowest(self@.branches, self@.trunk, branch@, self@.branches.len()),
    {
        let mut at: String = branch.to_owned();
        let mut left: usize = self.branches.len();
        loop
            invariant
                lowest(self@.branches, self@.trunk, branch@, self@.branches.len()) == lowest(
                    self@.branches,
                    self@.trunk,
                    at@,
                    left as nat,
                ),
            ensures
                at@ == lowest(self@.branches, self@.trunk, branch@, self@.branches.len()),
            decreases left,
        {
            match self.branches.get(&at) {
                None => {
                    break;
                },
                Some(m) => {
                    if self.is_trunk(&m.parent) || left == 0 {
                        break;
                    }
                    at = m.parent.clone();
                    left -= 1;
                },
            }
        }
        at
    }

    /// The top of the stack above `branch`, following the first child by name at each fork.
    pub fn stack_top(&self, branch: &str) -> (r: String)
        ensures
            tops(self@.branches, branch@, r@, self@.branches.len()),
    {
        let left: usize = self.branches.len();
        self.top_within(branch.to_owned(), left)
    }

    fn top_within(&self, at: String, left: usize) -> (r: String)
        ensures
            tops(self@.branches, at@, r@, left as nat),
        decreases left,
    {
        if left == 0 {
            return at;
        }
        let kids: Vec<String> = self.children_of(&at);
        if kids.len() == 0 {
            assert(childless(self@.branches, at@)) by {
                assert forall|d: Seq<char>| !#[trigger] is_child(self@.branches, at@, d) by {
                    assert(!views(kids@).contains(d));
                }
            }
            return at;
        }
        let next: String = kids[0].clone();
        proof {
            assert(views(kids@)[0] == next@);
            assert(views(kids@).contains(next@));
            assert(is_child(self@.branches, at@, next@));
            assert(!childless(self@.branches, at@));
            assert forall|d: Seq<char>| #[trigger] is_child(self@.branches, at@, d) implies d
                == next@ || lex_less(next@, d) by {
                assert(views(kids@).contains(d));
                let j = choose|j: int| 0 <= j < views(kids@).len() && views(kids@)[j] == d;
                if j > 0 {
                    assert(lex_less(views(kids@)[0], views(kids@)[j]));
                }
            }
            assert(first_child(self@.branches, at@, next@));
        }
        self.top_within(next, left - 1)
    }

    /// All descendants of `root`, parents before children.
    #[verifier::rlimit(40)]
    pub fn descendants_topo(&self, root: &str) -> (r: Vec<String>)
        ensures
            breadth_first(self@.branches, root@, views(r@)),
            views(r@) == topo(self@.branches, root@),
    {
        let ghost m = self@.branches;
        let total: usize = self.branches.len();
        let mut out: Vec<String> = Vec::new();
        let ghost mut pos: Seq<int> = Seq::empty();
        let mut i: usize = 0;
        assert(views(out@) =~= Seq::<Seq<char>>::empty());
        // The children of the root are listed first, then those of each branch of `out` in turn.
        let mut at: String = root.to_owned();
        loop
            invariant_except_break
                i <= out.len(),
                at@ == (if i == 0 {
                    root@
                } else {
                    views(out@)[i - 1]
                }),
                forall|a: int| 0 <= a < pos.len() ==> #[trigger] pos[a] < i - 1,
                forall|a: int|
                    0 <= a < i - 1 ==> listed(m, root@, #[trigger] views(out@)[a], views(out@)),
                i > 0 ==> listed(m, root@, root@, views(out@)),
            invariant
                m == self@.branches,
                m.dom().finite(),
                total == m.len(),
                views(out@).no_duplicates(),
                laid_out(m, root@, views(out@), pos),
                forall|b: Seq<char>| #[trigger] views(out@).contains(b) ==> descends(m, root@, b),
            ensures
                forall|a: int|
                    0 <= a < out.len() ==> listed(m, root@, #[trigger] views(out@)[a], views(out@)),
                listed(m, root@, root@, views(out@)),
            decreases total + 1 - i,
        {
            let kids: Vec<String> = self.children_of(&at);
            let ghost held = views(out@);
            let ghost held_pos = pos;
            let ghost names = views(kids@);
            let mut q: usize = 0;
            proof {
                lemma_sorted_distinct(names);
            }
            while q < kids.len()
                invariant
                    i <= held.len(),
                    at@ == (if i == 0 {
                        root@
                    } else {
                        held[i - 1]
                    }),
                    q <= kids.len(),
                    names == views(kids@),
                    sorted(names),
                    names.no_duplicates(),
                    forall|k: Seq<char>| #[trigger] names.contains(k) <==> is_child(m, at@, k),
                    held.len() <= out.len(),
                    held =~= views(out@).take(held.len() as int),
                    views(out@).no_duplicates(),
                    pos.len() == out.len(),
                    laid_out(m, root@, views(out@), pos),
                    forall|a: int| 0 <= a < held.len() ==> #[trigger] pos[a] < i - 1,
                    forall|a: int| held.len() <= a < out.len() ==> #[trigger] pos[a] == i - 1,
                    forall|a: int|
                        held.len() <= a < out.len() ==> names.take(q as int).contains(
                            #[trigger] views(out@)[a],
                        ),
                    forall|a: int|
                        0 <= a < q && names[a] != root@ ==> views(out@).contains(
                            #[trigger] names[a],
                        ),
                    forall|b: Seq<char>| #[trigger]
                        views(out@).contains(b) ==> descends(m, root@, b),
                decreases kids.len() - q,
            {
                let ghost so_far = views(out@);
                let ghost so_far_pos = pos;
                let kid: &String = &kids[q];
                assert(names[q as int] == kid@);
                assert(names.contains(kid@));
                assert(names.take(q + 1) =~= names.take(q as int).push(kid@));
                if !same(kid, root) {
                    out.push(kid.clone());
                    proof {
                        pos = pos.push(i - 1);
                        assert(views(out@) =~= so_far.push(kid@));
                        lemma_new_child(m, root@, so_far, so_far_pos, i as int, at@, kid@);
                        assert forall|a: int|
                            0 <= a < so_far.len() && so_far_pos[a] == i - 1 implies lex_less(
                            so_far[a],
                            kid@,
                        ) by {
                            assert(names.take(q as int).contains(views(out@)[a])) by {
                                assert(a >= held.len());
                                assert(so_far[a] == views(out@)[a]);
                            }
                            let z = choose|z: int|
                                0 <= z < names.take(q as int).len() && names.take(q as int)[z]
                                    == so_far[a];
                            assert(lex_less(names[z], names[q as int]));
                        }
                        lemma_new_child_order(m, root@, so_far, so_far_pos, i as int, at@, kid@);
                        assert forall|a: int|
                            held.len() <= a < out.len() implies names.take(q + 1).contains(
                            #[trigger] views(out@)[a],
                        ) by {
                            if a < so_far.len() {
                                assert(names.take(q as int).contains(so_far[a]));
                                let z = choose|z: int|
                                    0 <= z < names.take(q as int).len() && names.take(q as int)[z]
                                        == so_far[a];
                                assert(names.take(q + 1)[z] == so_far[a]);
                            } else {
                                assert(names.take(q + 1)[q as int] == kid@);
                            }
                        }
                        assert forall|a: int| 0 <= a < q + 1 && names[a] != root@ implies views(
                            out@,
                        ).contains(#[trigger] names[a]) by {
                            if a < q {
                                assert(so_far.contains(names[a]));
                                let z = choose|z: int|
                                    0 <= z < so_far.len() && so_far[z] == names[a];
                                assert(views(out@)[z] == names[a]);
                            } else {
                                assert(views(out@)[so_far.len() as int] == names[a]);
                            }
                        }
                        assert forall|b: Seq<char>| #[trigger]
                            views(out@).contains(b) implies descends(m, root@, b) by {
                            let z = choose|z: int| 0 <= z < views(out@).len() && views(out@)[z] == b;
                            if z < so_far.len() {
                                assert(so_far[z] == b);
                                assert(so_far.contains(b));
                            }
                        }
                    }
                } else {
                    proof {
                        assert forall|a: int|
                            held.len() <= a < out.len() implies names.take(q + 1).contains(
                            #[trigger] views(out@)[a],
                        ) by {
                            assert(names.take(q as int).contains(views(out@)[a]));
                            let z = choose|z: int|
                                0 <= z < names.take(q as int).len() && names.take(q as int)[z]
                                    == views(out@)[a];
                            assert(names.take(q + 1)[z] == views(out@)[a]);
                        }
                    }
                }
                q += 1;
            }
            proof {
                let now = views(out@);
                assert(listed(m, root@, at@, now)) by {
                    assert forall|k: Seq<char>| #[trigger]
                        is_child(m, at@, k) && k != root@ implies now.contains(k) by {
                        assert(names.contains(k));
                        let z = choose|z: int| 0 <= z < names.len() && names[z] == k;
                        assert(now.contains(names[z]));
                    }
                }
                assert forall|a: int| 0 <= a < i - 1 implies listed(
                    m,
                    root@,
                    #[trigger] now[a],
                    now,
                ) by {
                    assert(now[a] == held[a]);
                    lemma_listed_grows(m, root@, held[a], held, now);
                }
                if i > 0 {
                    lemma_listed_grows(m, root@, root@, held, now);
                    assert(now[i - 1] == at@);
                }
                assert forall|a: int| 0 <= a < now.len() implies m.contains_key(
                    #[trigger] now[a],
                ) by {
                    assert(now.contains(now[a]));
                    let n = choose|n: nat| below(m, root@, now[a], n);
                    assert(below(m, root@, now[a], n));
                }
                lemma_within(m, now);
            }
            if i == out.len() {
                break;
            }
            at = out[i].clone();
            i += 1;
        }
        proof {
            let s = views(out@);
            assert forall|b: Seq<char>| descends(m, root@, b) implies #[trigger] s.contains(b) by {
                let n = choose|n: nat| below(m, root@, b, n);
                lemma_all_listed(m, root@, s, b, n);
            }
            assert(laid_out(m, root@, s, pos));
            lemma_topo_unique(m, root@, s);
        }
        out
    }

    /// All branches that stand on the trunk, parents before children.
    pub fn topo_order(&self) -> (r: Vec<String>)
        ensures
            breadth_first(self@.branches, self@.trunk, views(r@)),
            views(r@) == topo(self@.branches, self@.trunk),
    {
        self.descendants_topo(&self.trunk)
    }

    /// The line of only children above `at`, or the branch where the stack forks.
    fn line_above(&self, at: &str, left: usize) -> (r: Result<Vec<String>, String>)
        ensures
            match r {
                Ok(up) => climbs(self@.branches, at@, views(up@), left as nat),
                Err(f) => forks_at(self@.branches, at@, f@, left as nat),
            },
        decreases left,
    {
        let ghost m = self@.branches;
        if left == 0 {
            return Ok(Vec::new());
        }
        let kids: Vec<String> = self.children_of(at);
        let ghost names = views(kids@);
        if kids.len() == 0 {
            assert(childless(m, at@)) by {
                assert forall|d: Seq<char>| !#[trigger] is_child(m, at@, d) by {
                    assert(!names.contains(d));
                }
            }
            return Ok(Vec::new());
        }
        assert(names.contains(names[0]));
        assert(is_child(m, at@, names[0]));
        if kids.len() > 1 {
            proof {
                assert(names.contains(names[1]));
                assert(is_child(m, at@, names[1]));
                lemma_sorted_distinct(names);
                assert forall|c: Seq<char>| !only_child(m, at@, c) by {
                    if only_child(m, at@, c) {
                        assert(names[0] == c && names[1] == c);
                    }
                }
            }
            return Err(at.to_owned());
        }
        assert(only_child(m, at@, names[0])) by {
            assert forall|d: Seq<char>| #[trigger] is_child(m, at@, d) implies d == names[0] by {
                assert(names.contains(d));
            }
        }
        match self.line_above(&kids[0], left - 1) {
            Err(f) => Err(f),
            Ok(rest) => {
                let mut rest = rest;
                let ghost held = views(rest@);
                rest.insert(0, kids[0].clone());
                assert(views(rest@) =~= seq![names[0]] + held);
                assert(views(rest@).drop_first() =~= held);
                Ok(rest)
            },
        }
    }

    /// The single line of branches that holds `branch`, from the trunk up.
    pub fn linear_stack(&self, branch: &str) -> (r: Result<Vec<String>, EzError>)
        ensures
            match r {
                Ok(line) => self@.managed(branch@) && self@.is_line(branch@, views(line@)),
                Err(e) => if self@.managed(branch@) {
                    exists|f: Seq<char>|
                        forks_at(self@.branches, branch@, f, self@.branches.len()) && e@
                            == ErrorView::UserMessage(#[trigger] fork_text(f))
                } else {
                    e@ == ErrorView::BranchNotInStack(branch@)
                },
            },
    {
        if !self.is_managed(branch) {
            return Err(EzError::BranchNotInStack(branch.to_owned()));
        }
        let left: usize = self.branches.len();
        match self.line_above(branch, left) {
            Err(f) => {
                let text: String = String::from_str("`").concat(&f).concat(
                    "` has more than one child, so the stack above it is not a single line",
                );
                assert(text@ == fork_text(f@));
                Err(EzError::UserMessage(text))
            },
            Ok(up) => {
                let mut up = up;
                let ghost above = views(up@);
                let path: Vec<String> = self.path_to_trunk(branch);
                let mut line: Vec<String> = Vec::new();
                let mut i: usize = path.len();
                assert(path.len() == views(path@).len());
                while i > 1
                    invariant
                        i <= path.len(),
                        i == path.len() || i >= 1,
                        views(line@) =~= views(path@).drop_last().reverse().take(
                            (if path.len() == 0 {
                                0
                            } else {
                                path.len() - i
                            }) as int,
                        ),
                    decreases i,
                {
                    let ghost held = views(line@);
                    i -= 1;
                    line.push(path[i - 1].clone());
                    proof {
                        let whole = views(path@).drop_last().reverse();
                        assert(views(line@) =~= held.push(path@[i - 1]@));
                        assert(whole.take(path.len() - i) =~= whole.take(
                            path.len() - i - 1,
                        ).push(path@[i - 1]@));
                    }
                }
                proof {
                    lemma_path_nonempty(self@.branches, self@.trunk, branch@, left as nat);
                    assert(views(line@) =~= views(path@).drop_last().reverse());
                    assert(views(line@) + above =~= views(line@ + up@));
                }
                line.append(&mut up);
                assert(climbs(self@.branches, branch@, above, self@.branches.len()));
                assert(views(line@) == self@.path_to_trunk(branch@).drop_last().reverse() + above);
                Ok(line)
            },
        }
    }

    /// Stacks the children of `branch` on `new_parent` instead, keeping the parent commit that
    /// each was last stacked on. Returns the children by name.
    pub fn reparent_children_preserving_parent_head(
        &mut self,
        branch: &str,
        new_parent: &str,
    ) -> (r: Vec<String>)
        ensures
            sorted(views(r@)),
            forall|k: Seq<char>| #[trigger]
                views(r@).contains(k) <==> is_child(old(self)@.branches, branch@, k),
            final(self)@ == old(self)@.with_branches(
                reparented(
                    old(self)@.branches,
                    children(old(self)@.branches, branch@),
                    new_parent@,
                ),
            ),
    {
        let kids: Vec<String> = self.children_of(branch);
        let ghost before = self@;
        let ghost names = views(kids@);
        let mut i: usize = 0;
        proof {
            lemma_sorted_distinct(names);
            assert(self@.branches =~= reparented(
                before.branches,
                names.take(0).to_set(),
                new_parent@,
            ));
        }
        while i < kids.len()
            invariant
                i <= kids.len(),
                names == views(kids@),
                names.no_duplicates(),
                forall|k: Seq<char>| #[trigger]
                    names.contains(k) <==> is_child(before.branches, branch@, k),
                self@ == before.with_branches(
                    reparented(before.branches, names.take(i as int).to_set(), new_parent@),
                ),
            decreases kids.len() - i,
        {
            proof {
                assert(names[i as int] == kids@[i as int]@);
                assert(names.contains(kids@[i as int]@));
                assert(!names.take(i as int).contains(names[i as int])) by {
                    if names.take(i as int).contains(names[i as int]) {
                        let j = choose|j: int|
                            0 <= j < i && names.take(i as int)[j] == names[i as int];
                        assert(names[j] == names[i as int]);
                    }
                }
                assert(names.take(i + 1) =~= names.take(i as int).push(names[i as int]));
                names.take(i as int).lemma_push_to_set_commute(names[i as int]);
            }
            let name: &String = &kids[i];
            if let Some(m) = self.branches.get(name) {
                let mut meta = m.copy();
                meta.parent = new_parent.to_owned();
                self.update(name, meta);
            }
            proof {
                assert(self@.branches =~= reparented(
                    before.branches,
                    names.take(i + 1).to_set(),
                    new_parent@,
                ));
            }
            i += 1;
        }
        proof {
            assert(names.take(kids.len() as int) =~= names);
            assert(names.to_set() =~= children(before.branches, branch@));
        }
        kids
    }
}

/// The branch that `k` parent steps down from `b` lead to.
spec fn down(m: Forest, b: Seq<char>, k: nat) -> Seq<char>
    decreases k,
{
    if k == 0 {
        b
    } else {
        m[down(m, b, (k - 1) as nat)].parent
    }
}

/// On a way down of `n` steps, each branch has the rest of the way before it.
proof fn lemma_down(m: Forest, root: Seq<char>, b: Seq<char>, n: nat, k: nat)
    requires
        below(m, root, b, n),
        k <= n,
        forall|j: nat| j < n ==> !below(m, root, b, j),
    ensures
        below(m, root, down(m, b, k), (n - k) as nat),
        forall|j: nat| j < n - k ==> !below(m, root, down(m, b, k), j),
        m.contains_key(down(m, b, k)),
    decreases k,
{
    if k > 0 {
        lemma_down(m, root, b, n, (k - 1) as nat);
        let c = down(m, b, (k - 1) as nat);
        assert(below(m, root, c, (n - k + 1) as nat));
        if m[c].parent == root {
            assert(below(m, root, c, 0));
        }
        assert forall|j: nat| j < n - k implies !below(m, root, down(m, b, k), j) by {
            if below(m, root, m[c].parent, j) {
                assert(below(m, root, c, (j + 1) as nat));
            }
        }
        assert(below(m, root, down(m, b, k), (n - k) as nat));
    }
}

/// The least number of steps that lead from `b` down to `root`.
proof fn lemma_least(m: Forest, root: Seq<char>, b: Seq<char>, n: nat) -> (k: nat)
    requires
        below(m, root, b, n),
    ensures
        k <= n,
        below(m, root, b, k),
        forall|j: nat| j < k ==> !below(m, root, b, j),
    decreases n,
{
    if exists|j: nat| j < n && below(m, root, b, j) {
        let j = choose|j: nat| j < n && below(m, root, b, j);
        lemma_least(m, root, b, j)
    } else {
        n
    }
}

/// A branch that descends from `root` does so in fewer steps than there are branches.
pub proof fn lemma_short_way(m: Forest, root: Seq<char>, b: Seq<char>) -> (k: nat)
    requires
        m.dom().finite(),
        descends(m, root, b),
    ensures
        k < m.len(),
        below(m, root, b, k),
{
    let n = choose|n: nat| below(m, root, b, n);
    let k = lemma_least(m, root, b, n);
    let way = Seq::new((k + 1) as nat, |i: int| down(m, b, i as nat));
    assert forall|i: int| 0 <= i < way.len() implies m.contains_key(#[trigger] way[i]) by {
        lemma_down(m, root, b, k, i as nat);
    }
    assert forall|i: int, j: int| 0 <= i < way.len() && 0 <= j < way.len() && i != j implies way[i]
        != way[j] by {
        let (x, y) = if i < j { (i, j) } else { (j, i) };
        lemma_down(m, root, b, k, x as nat);
        lemma_down(m, root, b, k, y as nat);
        if way[x] == way[y] {
            assert(below(m, root, way[x], (k - y) as nat));
        }
    }
    lemma_within(m, way);
    k
}

/// A way down that does not meet `c` is the same where only `c` is recorded otherwise.
proof fn lemma_way_apart(
    m: Forest,
    w: Forest,
    trunk: Seq<char>,
    b: Seq<char>,
    c: Seq<char>,
    n: nat,
    f: nat,
)
    requires
        below(m, trunk, b, n),
        n < f,
        !path_down(m, trunk, b, f).contains(c),
        forall|k: Seq<char>|
            k != c && #[trigger] m.contains_key(k) ==> w.contains_key(k) && w[k] == m[k],
    ensures
        below(w, trunk, b, n),
    decreases n,
{
    let path = path_down(m, trunk, b, f);
    assert(path[0] == b);
    assert(path.contains(b));
    if m[b].parent != trunk {
        let rest = path_down(m, trunk, m[b].parent, (f - 1) as nat);
        assert(path =~= seq![b] + rest);
        assert(!rest.contains(c)) by {
            if rest.contains(c) {
                let z = choose|z: int| 0 <= z < rest.len() && rest[z] == c;
                assert(path[z + 1] == c);
            }
        }
        lemma_way_apart(m, w, trunk, m[b].parent, c, (n - 1) as nat, (f - 1) as nat);
    }
}

/// A way down either avoids `c`, or ends where `c` stands, if `c` still descends.
proof fn lemma_way_rejoined(
    m: Forest,
    w: Forest,
    trunk: Seq<char>,
    b: Seq<char>,
    c: Seq<char>,
    n: nat,
)
    requires
        below(m, trunk, b, n),
        descends(w, trunk, c),
        forall|k: Seq<char>|
            k != c && #[trigger] m.contains_key(k) ==> w.contains_key(k) && w[k] == m[k],
    ensures
        descends(w, trunk, b),
    decreases n,
{
    if b != c {
        if m[b].parent == trunk {
            assert(below(w, trunk, b, 0));
        } else {
            lemma_way_rejoined(m, w, trunk, m[b].parent, c, (n - 1) as nat);
            let k = choose|k: nat| below(w, trunk, m[b].parent, k);
            assert(below(w, trunk, b, (k + 1) as nat));
        }
    }
}

impl StackView {
    /// Whether every recorded branch stands on the trunk, directly or over others.
    pub open spec fn grounded(self) -> bool {
        forall|b: Seq<char>| #[trigger]
            self.branches.contains_key(b) ==> descends(self.branches, self.trunk, b)
    }
}

/// Giving a branch a parent that is the trunk, or that stands on the trunk without it, leaves
/// every branch standing on the trunk.
pub proof fn law_new_parent_keeps_ground(
    s: StackView,
    b: Seq<char>,
    onto: Seq<char>,
    meta: MetaView,
)
    requires
        s.branches.dom().finite(),
        s.grounded(),
        b != s.trunk,
        meta.parent == onto,
        onto == s.trunk || (s.managed(onto) && !s.path_to_trunk(onto).contains(b)),
    ensures
        s.with_branches(s.branches.insert(b, meta)).grounded(),
{
    let m = s.branches;
    let w = m.insert(b, meta);
    if onto == s.trunk {
        assert(below(w, s.trunk, b, 0));
    } else {
        let n = lemma_short_way(m, s.trunk, onto);
        lemma_way_apart(m, w, s.trunk, onto, b, n, m.len());
        assert(below(w, s.trunk, b, (n + 1) as nat));
    }
    assert forall|k: Seq<char>| #[trigger] w.contains_key(k) implies descends(w, s.trunk, k) by {
        if k != b {
            let n = choose|n: nat| below(m, s.trunk, k, n);
            lemma_way_rejoined(m, w, s.trunk, k, b, n);
        }
    }
}

/// Where every branch stands on the trunk, the way down from a branch is the whole way: it
/// begins with the branch, each entry is the parent of the one before, and it ends at the trunk.
pub proof fn law_path_reaches_trunk(s: StackView, b: Seq<char>)
    requires
        s.branches.dom().finite(),
        s.grounded(),
        s.managed(b),
        b != s.trunk,
    ensures
        ({
            let path = s.path_to_trunk(b);
            &&& path.len() >= 2
            &&& path[0] == b
            &&& path.last() == s.trunk
            &&& forall|i: int|
                0 <= i < path.len() - 1 ==> s.managed(#[trigger] path[i])
                    && s.branches[path[i]].parent == path[i + 1]
        }),
{
    let n = lemma_short_way(s.branches, s.trunk, b);
    lemma_path_whole(s.branches, s.trunk, b, n, s.branches.len());
}

proof fn lemma_path_whole(m: Forest, trunk: Seq<char>, b: Seq<char>, n: nat, f: nat)
    requires
        below(m, trunk, b, n),
        n < f,
    ensures
        ({
            let path = path_down(m, trunk, b, f);
            &&& path.len() >= 2
            &&& path[0] == b
            &&& path.last() == trunk
            &&& forall|i: int|
                0 <= i < path.len() - 1 ==> m.contains_key(#[trigger] path[i])
                    && m[path[i]].parent == path[i + 1]
        }),
    decreases n,
{
    let path = path_down(m, trunk, b, f);
    let p = m[b].parent;
    let rest = path_down(m, trunk, p, (f - 1) as nat);
    assert(path =~= seq![b] + rest);
    if p == trunk {
        assert(rest =~= seq![trunk]);
    } else {
        lemma_path_whole(m, trunk, p, (n - 1) as nat, (f - 1) as nat);
        assert forall|i: int| 0 <= i < path.len() - 1 implies m.contains_key(#[trigger] path[i])
            && m[path[i]].parent == path[i + 1] by {
            if i > 0 {
                assert(path[i] == rest[i - 1]);
                assert(path[i + 1] == rest[i]);
            }
        }
    }
}

/// The branches with `b` forgotten, its children stacked on `parent` instead.
pub open spec fn forgotten(m: Forest, b: Seq<char>, parent: Seq<char>) -> Forest {
    reparented(m, children(m, b), parent).remove(b)
}

proof fn lemma_forgotten_way(
    m: Forest,
    trunk: Seq<char>,
    b: Seq<char>,
    onto: Seq<char>,
    k: Seq<char>,
    n: nat,
)
    requires
        b != trunk,
        m.contains_key(b),
        onto == trunk || onto == m[b].parent,
        below(m, trunk, k, n),
        k != b,
    ensures
        descends(forgotten(m, b, onto), trunk, k),
    decreases n,
{
    let w = forgotten(m, b, onto);
    let p = m[k].parent;
    if p == trunk {
        assert(below(w, trunk, k, 0));
    } else if p == b {
        if onto == trunk || m[b].parent == trunk {
            assert(below(w, trunk, k, 0));
        } else {
            assert(below(m, trunk, b, (n - 1) as nat));
            assert(below(m, trunk, m[b].parent, (n - 2) as nat));
            if m[b].parent == b {
                // A branch on itself has no way down.
                lemma_no_self(m, trunk, b, (n - 1) as nat);
            }
            lemma_forgotten_way(m, trunk, b, onto, m[b].parent, (n - 2) as nat);
            let j = choose|j: nat| below(w, trunk, m[b].parent, j);
            assert(below(w, trunk, k, (j + 1) as nat));
        }
    } else {
        lemma_forgotten_way(m, trunk, b, onto, p, (n - 1) as nat);
        let j = choose|j: nat| below(w, trunk, p, j);
        assert(below(w, trunk, k, (j + 1) as nat));
    }
}

/// A branch that is its own parent does not stand on anything else.
proof fn lemma_no_self(m: Forest, trunk: Seq<char>, b: Seq<char>, n: nat)
    requires
        m.contains_key(b),
        m[b].parent == b,
        b != trunk,
    ensures
        !below(m, trunk, b, n),
    decreases n,
{
    if n > 0 {
        lemma_no_self(m, trunk, b, (n - 1) as nat);
    }
}

/// Forgetting a branch, with its children stacked on its parent or on the trunk instead, leaves
/// every other branch standing on the trunk.
pub proof fn law_forgetting_keeps_ground(s: StackView, b: Seq<char>, onto: Seq<char>)
    requires
        s.grounded(),
        s.managed(b),
        b != s.trunk,
        onto == s.trunk || onto == s.branches[b].parent,
    ensures
        s.with_branches(forgotten(s.branches, b, onto)).grounded(),
{
    let m = s.branches;
    let w = forgotten(m, b, onto);
    assert forall|k: Seq<char>| #[trigger] w.contains_key(k) implies descends(w, s.trunk, k) by {
        assert(m.contains_key(k));
        let n = choose|n: nat| below(m, s.trunk, k, n);
        lemma_forgotten_way(m, s.trunk, b, onto, k, n);
    }
}

/// Forgetting a branch takes it out and puts its children, and them alone, under the given parent;
/// everything else of every other branch stays.
pub proof fn law_forgetting_moves_only_children(
    m: Forest,
    b: Seq<char>,
    onto: Seq<char>,
    k: Seq<char>,
)
    ensures
        forgotten(m, b, onto).contains_key(k) <==> m.contains_key(k) && k != b,
        m.contains_key(k) && k != b && m[k].parent == b ==> forgotten(m, b, onto)[k].parent == onto,
        m.contains_key(k) && k != b && m[k].parent != b ==> forgotten(m, b, onto)[k] == m[k],
        m.contains_key(k) && k != b ==> {
            &&& forgotten(m, b, onto)[k].parent_head == m[k].parent_head
            &&& forgotten(m, b, onto)[k].pr_number == m[k].pr_number
            &&& forgotten(m, b, onto)[k].scope == m[k].scope
            &&& forgotten(m, b, onto)[k].scope_mode == m[k].scope_mode
        },
{
}

/// Putting branches under another parent changes the parents of those branches and nothing else.
pub proof fn law_reparenting_changes_parents_only(
    m: Forest,
    moved: Set<Seq<char>>,
    parent: Seq<char>,
    k: Seq<char>,
)
    ensures
        reparented(m, moved, parent).contains_key(k) <==> m.contains_key(k),
        m.contains_key(k) && moved.contains(k) ==> reparented(m, moved, parent)[k].parent == parent
            && reparented(m, moved, parent)[k].parent_head == m[k].parent_head && reparented(
            m,
            moved,
            parent,
        )[k].pr_number == m[k].pr_number && reparented(m, moved, parent)[k].scope == m[k].scope
            && reparented(m, moved, parent)[k].scope_mode == m[k].scope_mode,
        m.contains_key(k) && !moved.contains(k) ==> reparented(m, moved, parent)[k] == m[k],
{
}

/// The children of a branch are the recorded branches whose parent it is.
pub proof fn law_children_name_their_parent(m: Forest, p: Seq<char>, k: Seq<char>)
    ensures
        children(m, p).contains(k) <==> m.contains_key(k) && m[k].parent == p,
        is_child(m, p, k) <==> m.contains_key(k) && m[k].parent == p,
{
}

/// A branch descends from another exactly where it is recorded, is another, and its parent is that
/// one or descends from it.
pub proof fn law_descent_goes_by_parents(m: Forest, root: Seq<char>, b: Seq<char>)
    ensures
        descends(m, root, b) <==> m.contains_key(b) && b != root && (m[b].parent == root
            || descends(m, root, m[b].parent)),
{
    if descends(m, root, b) {
        let n = choose|n: nat| below(m, root, b, n);
        if m[b].parent != root {
            assert(below(m, root, m[b].parent, (n - 1) as nat));
        }
    }
    if m.contains_key(b) && b != root {
        if m[b].parent == root {
            assert(below(m, root, b, 0));
        } else if descends(m, root, m[b].parent) {
            let n = choose|n: nat| below(m, root, m[b].parent, n);
            assert(below(m, root, b, n + 1));
        }
    }
}

/// The descendants of a branch are listed once each, none else is, and a parent that is listed
/// stands before its children.
pub proof fn law_descendants_are_listed(m: Forest, root: Seq<char>, s: Seq<Seq<char>>)
    requires
        breadth_first(m, root, s),
    ensures
        s.no_duplicates(),
        forall|b: Seq<char>| #[trigger] s.contains(b) <==> descends(m, root, b),
        forall|i: int|
            #![trigger s[i]]
            0 <= i < s.len() ==> m.contains_key(s[i]) && s[i] != root && (m[s[i]].parent == root
                || exists|j: int| 0 <= j < i && #[trigger] s[j] == m[s[i]].parent),
        forall|i: int, j: int|
            #![trigger s[i], s[j]]
            0 <= i < j < s.len() && m[s[i]].parent == m[s[j]].parent ==> lex_less(s[i], s[j]),
        topo(m, root) == s,
{
    let pos = choose|pos: Seq<int>| laid_out(m, root, s, pos);
    assert forall|i: int|
        #![trigger s[i]]
        0 <= i < s.len() implies m.contains_key(s[i]) && s[i] != root && (m[s[i]].parent == root
        || exists|j: int| 0 <= j < i && #[trigger] s[j] == m[s[i]].parent) by {
        assert(s.contains(s[i]));
        law_descent_goes_by_parents(m, root, s[i]);
        assert(-1 <= pos[i] < i);
        if pos[i] >= 0 {
            assert(s[pos[i]] == m[s[i]].parent);
        }
    }
    assert forall|i: int, j: int|
        #![trigger s[i], s[j]]
        0 <= i < j < s.len() && m[s[i]].parent == m[s[j]].parent implies lex_less(s[i], s[j]) by {
        assert(s.contains(s[i]) && s.contains(s[j]));
        law_descent_goes_by_parents(m, root, s[i]);
        law_descent_goes_by_parents(m, root, s[j]);
        assert(pos[i] < pos[j] || (pos[i] == pos[j] && lex_less(s[i], s[j])));
        if pos[i] < pos[j] {
            assert(-1 <= pos[j] < j);
            let p = s[pos[j]];
            assert(p == m[s[j]].parent);
            assert(s.contains(p));
            law_descent_goes_by_parents(m, root, p);
            if pos[i] >= 0 {
                assert(s[pos[i]] == p);
            } else {
                assert(m[s[i]].parent == root);
            }
        }
    }
    lemma_topo_unique(m, root, s);
}

/// The path of a branch to the trunk begins with the branch, goes on with the path of its parent,
/// and ends at the trunk or at a branch that is not recorded.
pub proof fn law_path_follows_parents(m: Forest, trunk: Seq<char>, b: Seq<char>, n: nat)
    ensures
        path_down(m, trunk, b, n).len() > 0,
        path_down(m, trunk, b, n)[0] == b,
        b == trunk || !m.contains_key(b) ==> path_down(m, trunk, b, n) == seq![b],
        b != trunk && m.contains_key(b) && n > 0 ==> path_down(m, trunk, b, n).drop_first()
            == path_down(m, trunk, m[b].parent, (n - 1) as nat),
{
    lemma_path_nonempty(m, trunk, b, n);
    if b != trunk && m.contains_key(b) && n > 0 {
        assert(path_down(m, trunk, b, n).drop_first() =~= path_down(
            m,
            trunk,
            m[b].parent,
            (n - 1) as nat,
        ));
    }
}

/// The bottom of a branch's stack stands on the trunk, and lies on the branch's path to it.
pub proof fn law_bottom_stands_on_trunk(s: StackView, b: Seq<char>)
    requires
        s.branches.dom().finite(),
        descends(s.branches, s.trunk, b),
    ensures
        ({
            let low = lowest(s.branches, s.trunk, b, s.branches.len());
            &&& s.managed(low)
            &&& s.branches[low].parent == s.trunk
            &&& low == b || descends(s.branches, low, b)
        }),
{
    let k = lemma_short_way(s.branches, s.trunk, b);
    lemma_lowest_on_root(s.branches, s.trunk, b, s.branches.len(), k);
}

proof fn lemma_lowest_on_root(m: Forest, trunk: Seq<char>, b: Seq<char>, n: nat, k: nat)
    requires
        below(m, trunk, b, k),
        k < n,
    ensures
        ({
            let low = lowest(m, trunk, b, n);
            &&& m.contains_key(low)
            &&& m[low].parent == trunk
            &&& low != trunk
            &&& low == b || descends(m, low, b)
        }),
    decreases n,
{
    if m[b].parent != trunk {
        let p = m[b].parent;
        lemma_lowest_on_root(m, trunk, p, (n - 1) as nat, (k - 1) as nat);
        let low = lowest(m, trunk, b, n);
        law_descent_goes_by_parents(m, low, b);
        if low == b {
            assert(m[b].parent == trunk);
        }
    }
}

/// A fork workflow is one whose remote is not the upstream one, or whose fork is another
/// repository; without either setting there is none.
pub proof fn law_fork_workflow_needs_a_setting(s: StackView)
    ensures
        s.upstream_remote is None && s.fork_repo is None ==> !s.is_fork_workflow(),
        s.upstream_remote is Some && s.upstream_remote != Some(s.remote) ==> s.is_fork_workflow(),
        s.fork_repo is Some && s.fork_repo != s.repo ==> s.is_fork_workflow(),
        s.is_fork_workflow() ==> (s.upstream_remote is Some && s.upstream_remote != Some(s.remote))
            || (s.fork_repo is Some && s.fork_repo != s.repo),
        s.upstream_remote is None ==> s.fetch_remote() == s.remote,
        s.upstream_remote is Some ==> Some(s.fetch_remote()) == s.upstream_remote,
{
}

/// A branch that is added anew has the given parent and parent commit, and no pull request.
pub proof fn law_new_branch_has_no_pull_request(
    parent: Seq<char>,
    head: Seq<char>,
    scope: Option<Seq<Seq<char>>>,
    mode: Option<ScopeMode>,
)
    ensures
        ({
            let meta = fresh_meta(parent, head, scope, mode);
            &&& meta.parent == parent
            &&& meta.parent_head == head
            &&& meta.pr_number is None
            &&& meta.scope == scope
            &&& meta.scope_mode == mode
        }),
{
}

/// The top above a branch is the branch itself where nothing stands on it, and otherwise the top
/// above its first child by name; it lies above the branch.
pub proof fn law_top_lies_above(m: Forest, b: Seq<char>, t: Seq<char>, n: nat)
    requires
        tops(m, b, t, n),
    ensures
        t == b || exists|c: Seq<char>| #[trigger] m.contains_key(c) && m[c].parent == b,
        (forall|c: Seq<char>| #[trigger] m.contains_key(c) ==> m[c].parent != b) ==> t == b,
        n > 0 ==> forall|c: Seq<char>|
            #![trigger m.contains_key(c)]
            m.contains_key(c) && m[c].parent == b && (forall|d: Seq<char>|
                #![trigger m.contains_key(d)]
                m.contains_key(d) && m[d].parent == b ==> d == c || lex_less(c, d)) ==> tops(
                m,
                c,
                t,
                (n - 1) as nat,
            ),
{
    if n > 0 && !childless(m, b) {
        let f = choose|f: Seq<char>| #[trigger]
            first_child(m, b, f) && tops(m, f, t, (n - 1) as nat);
        assert(m.contains_key(f) && m[f].parent == b);
        assert forall|c: Seq<char>|
            #![trigger m.contains_key(c)]
            m.contains_key(c) && m[c].parent == b && (forall|d: Seq<char>|
                #![trigger m.contains_key(d)]
                m.contains_key(d) && m[d].parent == b ==> d == c || lex_less(c, d)) implies tops(
            m,
            c,
            t,
            (n - 1) as nat,
        ) by {
            assert(is_child(m, b, c));
            assert(f == c || lex_less(f, c));
            assert(f == c || lex_less(c, f));
            crate::text::lex_less_total(c, f);
        }
    } else {
        assert forall|c: Seq<char>|
            #![trigger m.contains_key(c)]
            n > 0 && m.contains_key(c) implies m[c].parent != b by {
            assert(!is_child(m, b, c));
        }
    }
}

/// The line above a branch goes from child to child, each the only one of the one below it, up to
/// a branch that nothing stands on.
pub proof fn law_line_goes_from_only_child_to_only_child(
    m: Forest,
    b: Seq<char>,
    up: Seq<Seq<char>>,
    n: nat,
)
    requires
        climbs(m, b, up, n),
    ensures
        up.len() <= n,
        forall|i: int|
            0 <= i < up.len() ==> m.contains_key(#[trigger] up[i]) && m[up[i]].parent == (if i == 0 {
                b
            } else {
                up[i - 1]
            }),
        forall|i: int, d: Seq<char>|
            #![trigger up[i], m.contains_key(d)]
            0 <= i < up.len() && m.contains_key(d) && m[d].parent == m[up[i]].parent ==> d == up[i],
        up.len() < n ==> forall|d: Seq<char>| #[trigger]
            m.contains_key(d) ==> m[d].parent != (if up.len() == 0 {
                b
            } else {
                up.last()
            }),
    decreases n,
{
    if n == 0 || childless(m, b) {
        assert forall|d: Seq<char>| #[trigger]
            m.contains_key(d) && up.len() < n implies m[d].parent != b by {
            assert(!is_child(m, b, d));
        }
    } else {
        let rest = up.drop_first();
        law_line_goes_from_only_child_to_only_child(m, up[0], rest, (n - 1) as nat);
        assert(is_child(m, b, up[0]));
        assert forall|i: int| 0 <= i < up.len() implies m.contains_key(#[trigger] up[i])
            && m[up[i]].parent == (if i == 0 {
            b
        } else {
            up[i - 1]
        }) by {
            if i > 0 {
                assert(rest[i - 1] == up[i]);
                if i > 1 {
                    assert(rest[i - 2] == up[i - 1]);
                }
            }
        }
        assert forall|i: int, d: Seq<char>|
            #![trigger up[i], m.contains_key(d)]
            0 <= i < up.len() && m.contains_key(d) && m[d].parent == m[up[i]].parent implies d
            == up[i] by {
            if i > 0 {
                assert(rest[i - 1] == up[i]);
            } else {
                assert(is_child(m, b, d));
            }
        }
        if rest.len() > 0 {
            assert(up.last() == rest.last());
        }
    }
}

/// A line is refused at a branch on which more than one stands.
pub proof fn law_line_is_refused_at_a_fork(m: Forest, b: Seq<char>, f: Seq<char>, n: nat)
    requires
        forks_at(m, b, f, n),
    ensures
        exists|c: Seq<char>, d: Seq<char>|
            #![trigger m.contains_key(c), m.contains_key(d)]
            c != d && m.contains_key(c) && m.contains_key(d) && m[c].parent == f && m[d].parent == f,
    decreases n,
{
    if exists|c: Seq<char>| only_child(m, b, c) {
        let c = choose|c: Seq<char>| #[trigger]
            only_child(m, b, c) && forks_at(m, c, f, (n - 1) as nat);
        law_line_is_refused_at_a_fork(m, c, f, (n - 1) as nat);
    } else {
        let c = choose|c: Seq<char>| is_child(m, b, c);
        assert(is_child(m, b, c));
        assert(!only_child(m, b, c));
        let d = choose|d: Seq<char>| #[trigger] is_child(m, b, d) && d != c;
        assert(m.contains_key(c) && m.contains_key(d));
    }
}

} // verus!
