//! What git reports, as plain values.

use crate::text::views;
use vstd::prelude::*;

verus! {

/// A worktree of the repository.
#[derive(Debug)]
pub struct WorktreeInfo {
    pub path: String,
    pub branch: Option<String>,
    pub locked_reason: Option<String>,
}

/// Why a rebase stopped.
#[derive(Debug)]
pub struct RebaseConflict {
    pub conflicting_files: Vec<String>,
    pub stderr: String,
}

/// The outcome of one operation that a running command asked for.
#[derive(Debug)]
pub enum Reply {
    /// The operation succeeded and has nothing to say.
    Done,
    /// The operation failed, in its own words.
    Failed(String),
    /// A yes or no.
    Flag(bool),
    /// A name, a path or a commit.
    Text(String),
    /// The branches with a worktree, each with its path.
    Worktrees(Vec<(String, String)>),
    /// The processes that were stopped.
    Numbers(Vec<u64>),
}

/// The contents of a `RebaseConflict`.
#[verifier::ext_equal]
pub struct ConflictView {
    pub conflicting_files: Seq<Seq<char>>,
    pub stderr: Seq<char>,
}

impl View for RebaseConflict {
    type V = ConflictView;

    open spec fn view(&self) -> ConflictView {
        ConflictView { conflicting_files: views(self.conflicting_files@), stderr: self.stderr@ }
    }
}

/// The contents of a `Reply`.
#[verifier::ext_equal]
pub enum ReplyView {
    Done,
    Failed(Seq<char>),
    Flag(bool),
    Text(Seq<char>),
    Worktrees(Seq<(Seq<char>, Seq<char>)>),
    Numbers(Seq<u64>),
}

/// The contents of a list of pairs of strings.
pub open spec fn pair_views(s: Seq<(String, String)>) -> Seq<(Seq<char>, Seq<char>)> {
    Seq::new(s.len(), |i: int| (s[i].0@, s[i].1@))
}

impl View for Reply {
    type V = ReplyView;

    open spec fn view(&self) -> ReplyView {
        match *self {
            Reply::Done => ReplyView::Done,
            Reply::Failed(t) => ReplyView::Failed(t@),
            Reply::Flag(b) => ReplyView::Flag(b),
            Reply::Text(t) => ReplyView::Text(t@),
            Reply::Worktrees(v) => ReplyView::Worktrees(pair_views(v@)),
            Reply::Numbers(v) => ReplyView::Numbers(v@),
        }
    }
}

/// The path recorded for a branch: the last one, where there are several.
pub open spec fn path_of(known: Seq<(Seq<char>, Seq<char>)>, branch: Seq<char>) -> Option<Seq<char>>
    decreases known.len(),
{
    if known.len() == 0 {
        None
    } else if known.last().0 == branch {
        Some(known.last().1)
    } else {
        path_of(known.drop_last(), branch)
    }
}

/// The path recorded for a branch: the last one, where there are several.
pub fn find_path(known: &Vec<(String, String)>, branch: &str) -> (r: Option<String>)
    ensures
        crate::text::opt_view(r) == path_of(pair_views(known@), branch@),
{
    let ghost all = pair_views(known@);
    let mut i: usize = known.len();
    assert(all.take(i as int) =~= all);
    while i > 0
        invariant
            i <= known.len(),
            all == pair_views(known@),
            path_of(all, branch@) == path_of(all.take(i as int), branch@),
        decreases i,
    {
        i -= 1;
        assert(all.take(i + 1).drop_last() =~= all.take(i as int));
        assert(all.take(i + 1).last() == (known@[i as int].0@, known@[i as int].1@));
        if crate::text::same(&known[i].0, branch) {
            return Some(known[i].1.clone());
        }
    }
    None
}

/// What was read from a repository: the commits that names resolve to, where histories part,
/// and which commits are part of which.
#[derive(Debug)]
pub struct GitView {
    /// The local branches.
    pub local: Vec<String>,
    /// Names and the commits they resolve to.
    pub tips: Vec<(String, String)>,
    /// Pairs of names and the merge base of each.
    pub bases: Vec<((String, String), String)>,
    /// Pairs of names or commits, the first an ancestor of the second.
    pub ancestors: Vec<(String, String)>,
}

/// The value of the last entry for a pair.
pub open spec fn base_of(
    s: Seq<((String, String), String)>,
    a: Seq<char>,
    b: Seq<char>,
) -> Option<Seq<char>>
    decreases s.len(),
{
    if s.len() == 0 {
        None
    } else if s.last().0.0@ == a && s.last().0.1@ == b {
        Some(s.last().1@)
    } else {
        base_of(s.drop_last(), a, b)
    }
}

impl GitView {
    /// Whether there is a local branch of that name.
    pub open spec fn has_branch(self, b: Seq<char>) -> bool {
        views(self.local@).contains(b)
    }

    /// The commit that a name resolves to.
    pub open spec fn tip(self, name: Seq<char>) -> Option<Seq<char>> {
        path_of(pair_views(self.tips@), name)
    }

    /// The merge base of two names.
    pub open spec fn base(self, a: Seq<char>, b: Seq<char>) -> Option<Seq<char>> {
        base_of(self.bases@, a, b)
    }

    /// Whether `a` is an ancestor of `b`.
    pub open spec fn ancestor(self, a: Seq<char>, b: Seq<char>) -> bool {
        pair_views(self.ancestors@).contains((a, b))
    }

    /// Whether there is a local branch of that name.
    pub fn branch_exists(&self, b: &str) -> (r: bool)
        ensures
            r == self.has_branch(b@),
    {
        crate::text::holds(&self.local, b)
    }

    /// The commit that a name resolves to.
    pub fn rev_parse(&self, name: &str) -> (r: Option<String>)
        ensures
            crate::text::opt_view(r) == self.tip(name@),
    {
        find_path(&self.tips, name)
    }

    /// The merge base of two names.
    pub fn merge_base(&self, a: &str, b: &str) -> (r: Option<String>)
        ensures
            crate::text::opt_view(r) == self.base(a@, b@),
    {
        let mut i: usize = self.bases.len();
        assert(self.bases@.take(i as int) =~= self.bases@);
        while i > 0
            invariant
                i <= self.bases.len(),
                base_of(self.bases@, a@, b@) == base_of(self.bases@.take(i as int), a@, b@),
            decreases i,
        {
            i -= 1;
            assert(self.bases@.take(i + 1).drop_last() =~= self.bases@.take(i as int));
            if crate::text::same(&self.bases[i].0.0, a) && crate::text::same(
                &self.bases[i].0.1,
                b,
            ) {
                return Some(self.bases[i].1.clone());
            }
        }
        None
    }

    /// Whether `a` is an ancestor of `b`.
    pub fn is_ancestor(&self, a: &str, b: &str) -> (r: bool)
        ensures
            r == self.ancestor(a@, b@),
    {
        let ghost all = pair_views(self.ancestors@);
        let mut i: usize = 0;
        while i < self.ancestors.len()
            invariant
                i <= self.ancestors.len(),
                all == pair_views(self.ancestors@),
                forall|j: int| 0 <= j < i ==> #[trigger] all[j] != (a@, b@),
            decreases self.ancestors.len() - i,
        {
            if crate::text::same(&self.ancestors[i].0, a) && crate::text::same(
                &self.ancestors[i].1,
                b,
            ) {
                assert(all[i as int] == (a@, b@));
                return true;
            }
            i += 1;
        }
        false
    }
}

/// What was told last of a name counts; of a name that nothing was told of, nothing is known.
pub proof fn law_last_word_counts(
    known: Seq<(Seq<char>, Seq<char>)>,
    name: Seq<char>,
    value: Seq<char>,
    other: Seq<char>,
)
    ensures
        path_of(known.push((name, value)), name) == Some(value),
        other != name ==> path_of(known.push((name, value)), other) == path_of(known, other),
        path_of(Seq::<(Seq<char>, Seq<char>)>::empty(), name) is None,
{
    assert(known.push((name, value)).drop_last() =~= known);
}

/// What was told last of a pair counts; of a pair that nothing was told of, nothing is known.
pub proof fn law_last_word_of_a_pair_counts(
    s: Seq<((String, String), String)>,
    e: ((String, String), String),
    a: Seq<char>,
    b: Seq<char>,
)
    ensures
        base_of(s.push(e), e.0.0@, e.0.1@) == Some(e.1@),
        (a, b) != (e.0.0@, e.0.1@) ==> base_of(s.push(e), a, b) == base_of(s, a, b),
        base_of(Seq::<((String, String), String)>::empty(), a, b) is None,
{
    assert(s.push(e).drop_last() =~= s);
}

} // verus!
