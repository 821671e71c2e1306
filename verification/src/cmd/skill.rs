//! Installing the skill that teaches agents the workflow.

use crate::error::{ErrorView, EzError};
use crate::text::{
    absolute, copy_all, join, join_path, joined, lines, lines_of, names_in_path, opt_view, path_joined,
    path_names, same, trim, trimmed, views,
};
use vstd::prelude::*;
use vstd::string::*;

verus! {

/// What was done for one agent.
#[derive(Clone, Copy, Debug, PartialEq, Eq, Structural)]
pub enum AgentInstallStatus {
    Unchanged,
    Linked,
    Copied,
    PreservedExisting,
}

/// The directory of the skill.
pub open spec fn canonical_dir(root: Seq<char>) -> Seq<char> {
    path_joined(path_joined(root, ".agents/skills"@), "ez-workflow"@)
}

/// The directory of the skill.
pub fn canonical_skill_dir(root: &str) -> (r: String)
    ensures
        r@ == canonical_dir(root@),
{
    let dir: String = join_path(root, ".agents/skills");
    join_path(&dir, "ez-workflow")
}

/// The file of the skill.
pub fn canonical_skill_file(root: &str) -> (r: String)
    ensures
        r@ == path_joined(canonical_dir(root@), "SKILL.md"@),
{
    let dir: String = canonical_skill_dir(root);
    join_path(&dir, "SKILL.md")
}

/// The file of a copy of the skill.
pub fn agent_skill_file(dir: &str) -> (r: String)
    ensures
        r@ == path_joined(dir@, "SKILL.md"@),
{
    join_path(dir, "SKILL.md")
}

/// The roots under which agents look for skills, relative to the repository's: those of other
/// agents, and the one that is always served.
pub open spec fn served_roots(others: Seq<Seq<char>>) -> Seq<Seq<char>> {
    others.push(".codex/skills"@)
}

/// The roots under which agents look for skills, relative to the repository's.
pub fn agent_roots(others: &Vec<String>) -> (r: Vec<String>)
    ensures
        views(r@) == served_roots(views(others@)),
{
    let mut roots: Vec<String> = copy_all(others);
    let ghost held = views(roots@);
    roots.push(String::from_str(".codex/skills"));
    assert(views(roots@) =~= held.push(".codex/skills"@));
    roots
}

/// Where agents look for the skill: one place for each of their roots.
pub open spec fn agent_dirs(root: Seq<char>, agent_roots: Seq<Seq<char>>) -> Seq<Seq<char>> {
    agent_roots.map_values(
        |a: Seq<char>| path_joined(path_joined(root, a), "ez-workflow"@),
    )
}

/// Where agents look for the skill, the roots of other agents being given relative to `root`.
pub fn agent_skill_dirs(root: &str, other_roots: &Vec<String>) -> (r: Vec<String>)
    ensures
        views(r@) == agent_dirs(root@, served_roots(views(other_roots@))),
{
    let agent_roots: Vec<String> = agent_roots(other_roots);
    let ghost all = agent_dirs(root@, views(agent_roots@));
    let mut out: Vec<String> = Vec::new();
    let mut i: usize = 0;
    assert(views(out@) =~= all.take(0));
    while i < agent_roots.len()
        invariant
            i <= agent_roots.len(),
            all == agent_dirs(root@, views(agent_roots@)),
            views(out@) == all.take(i as int),
        decreases agent_roots.len() - i,
    {
        let ghost held = views(out@);
        let skills: String = join_path(root, &agent_roots[i]);
        let dir: String = join_path(&skills, "ez-workflow");
        let ghost d = dir@;
        out.push(dir);
        proof {
            assert(views(agent_roots@)[i as int] == agent_roots@[i as int]@);
            assert(all[i as int] == d);
            assert(views(out@) =~= held.push(d));
            assert(all.take(i + 1) =~= all.take(i as int).push(all[i as int]));
        }
        i += 1;
    }
    assert(all.take(agent_roots.len() as int) =~= all);
    out
}

/// The steps of a path from the root or the current directory: the root counts as one.
pub open spec fn path_steps(p: Seq<char>) -> Seq<Seq<char>> {
    if absolute(p) {
        seq!["/"@] + path_names(p)
    } else {
        path_names(p)
    }
}

fn steps_in(p: &str) -> (r: Vec<String>)
    ensures
        views(r@) == path_steps(p@),
{
    let names: Vec<String> = names_in_path(p);
    if p.is_empty() || p.get_char(0) != '/' {
        return names;
    }
    let mut out: Vec<String> = Vec::new();
    out.push(String::from_str("/"));
    let mut i: usize = 0;
    assert(views(out@) =~= seq!["/"@] + views(names@).take(0));
    while i < names.len()
        invariant
            i <= names.len(),
            views(out@) == seq!["/"@] + views(names@).take(i as int),
        decreases names.len() - i,
    {
        let ghost held = views(out@);
        out.push(names[i].clone());
        proof {
            assert(views(out@) =~= held.push(names@[i as int]@));
            assert(views(names@).take(i + 1) =~= views(names@).take(i as int).push(
                names@[i as int]@,
            ));
            assert(views(out@) =~= seq!["/"@] + views(names@).take(i + 1));
        }
        i += 1;
    }
    assert(views(names@).take(names.len() as int) =~= views(names@));
    out
}

/// Whether two texts name the same path: step by step, whatever slashes are doubled or trailing.
pub open spec fn same_way(a: Seq<char>, b: Seq<char>) -> bool {
    path_steps(a) == path_steps(b)
}

fn is_same_way(a: &str, b: &str) -> (r: bool)
    ensures
        r == same_way(a@, b@),
{
    let x: Vec<String> = steps_in(a);
    let y: Vec<String> = steps_in(b);
    assert(views(x@).len() == x.len());
    assert(views(y@).len() == y.len());
    if x.len() != y.len() {
        return false;
    }
    let mut i: usize = 0;
    while i < x.len()
        invariant
            i <= x.len(),
            x.len() == y.len(),
            views(x@) == path_steps(a@),
            views(y@) == path_steps(b@),
            forall|j: int| 0 <= j < i ==> (#[trigger] views(x@)[j]) == views(y@)[j],
        decreases x.len() - i,
    {
        assert(views(x@)[i as int] == x@[i as int]@);
        assert(views(y@)[i as int] == y@[i as int]@);
        if !same(&x[i], &y[i]) {
            return false;
        }
        i += 1;
    }
    assert(views(x@) =~= views(y@));
    true
}

/// How many first elements two sequences share.
pub open spec fn shared(a: Seq<Seq<char>>, b: Seq<Seq<char>>) -> nat
    decreases a.len(),
{
    if a.len() == 0 || b.len() == 0 || a[0] != b[0] {
        0
    } else {
        1 + shared(a.drop_first(), b.drop_first())
    }
}

proof fn lemma_shared(a: Seq<Seq<char>>, b: Seq<Seq<char>>, n: nat)
    requires
        n <= a.len(),
        n <= b.len(),
        forall|i: int| 0 <= i < n ==> a[i] == b[i],
        n < a.len() && n < b.len() ==> a[n as int] != b[n as int],
    ensures
        shared(a, b) == n,
    decreases n,
{
    if n > 0 {
        let x = a.drop_first();
        let y = b.drop_first();
        assert(a[0] == b[0]);
        assert forall|i: int| 0 <= i < n - 1 implies x[i] == y[i] by {
            assert(a[i + 1] == b[i + 1]);
        }
        lemma_shared(x, y, (n - 1) as nat);
    }
}

/// The way from one place to another: up to where they part, then down. A way that leads from a
/// relative place to the root starts at the root.
pub open spec fn way(from: Seq<Seq<char>>, to: Seq<Seq<char>>) -> Seq<char> {
    let n = shared(from, to) as int;
    let down = to.skip(n);
    if down.len() > 0 && down[0] == "/"@ {
        "/"@ + joined(down.drop_first(), "/"@)
    } else {
        let steps = Seq::new((from.len() - n) as nat, |i: int| ".."@) + down;
        if steps.len() == 0 {
            "."@
        } else {
            joined(steps, "/"@)
        }
    }
}

fn find_way(from: &Vec<String>, from_len: usize, to: &Vec<String>) -> (r: String)
    requires
        from_len <= from.len(),
    ensures
        r@ == way(views(from@).take(from_len as int), views(to@)),
{
    let ghost x = views(from@).take(from_len as int);
    let ghost y = views(to@);
    let mut n: usize = 0;
    while n < from_len && n < to.len() && same(&from[n], &to[n])
        invariant
            n <= from_len <= from.len(),
            n <= to.len(),
            x == views(from@).take(from_len as int),
            y == views(to@),
            forall|i: int| 0 <= i < n ==> x[i] == y[i],
        decreases from_len - n,
    {
        n += 1;
    }
    proof {
        lemma_shared(x, y, n as nat);
    }
    let ghost down = y.skip(n as int);
    let from_root: bool = n < to.len() && same(&to[n], "/");
    let start: usize = if from_root {
        n + 1
    } else {
        n
    };
    let mut steps: Vec<String> = Vec::new();
    assert(views(steps@) =~= Seq::<Seq<char>>::empty());
    if !from_root {
        let mut i: usize = n;
        assert(views(steps@) =~= Seq::new(0, |j: int| ".."@));
        while i < from_len
            invariant
                n <= i <= from_len,
                views(steps@) == Seq::new((i - n) as nat, |j: int| ".."@),
            decreases from_len - i,
        {
            let ghost held = views(steps@);
            steps.push(String::from_str(".."));
            assert(views(steps@) =~= held.push(".."@));
            assert(views(steps@) =~= Seq::new((i + 1 - n) as nat, |j: int| ".."@));
            i += 1;
        }
    }
    let ghost ups = views(steps@);
    let mut k: usize = start;
    assert(ups =~= ups + y.subrange(start as int, start as int));
    while k < to.len()
        invariant
            start <= k <= to.len(),
            y == views(to@),
            views(steps@) == ups + y.subrange(start as int, k as int),
        decreases to.len() - k,
    {
        let ghost held = views(steps@);
        steps.push(to[k].clone());
        assert(views(steps@) =~= held.push(to@[k as int]@));
        assert(y.subrange(start as int, k + 1) =~= y.subrange(start as int, k as int).push(
            to@[k as int]@,
        ));
        assert(views(steps@) =~= ups + y.subrange(start as int, k + 1));
        k += 1;
    }
    proof {
        assert(y.subrange(start as int, to.len() as int) =~= y.skip(start as int));
        assert(views(steps@).len() == steps.len());
        if from_root {
            assert(down[0] == "/"@);
            assert(y.skip(start as int) =~= down.drop_first());
            assert(views(steps@) =~= down.drop_first());
        } else {
            assert(down.len() > 0 ==> down[0] == to@[n as int]@);
            assert(views(steps@) =~= Seq::new((x.len() - n) as nat, |i: int| ".."@) + down);
        }
    }
    if from_root {
        let rest: String = join(&steps, "/");
        String::from_str("/").concat(&rest)
    } else if steps.len() == 0 {
        String::from_str(".")
    } else {
        join(&steps, "/")
    }
}

/// The way from one directory to another.
pub fn relative_path(from: &str, to: &str) -> (r: String)
    ensures
        r@ == way(path_steps(from@), path_steps(to@)),
{
    let a: Vec<String> = steps_in(from);
    let b: Vec<String> = steps_in(to);
    assert(views(a@).take(a.len() as int) =~= views(a@));
    find_way(&a, a.len(), &b)
}

/// Whether a text is this skill: its front matter names it.
pub open spec fn is_workflow(content: Seq<char>) -> bool {
    let l = lines_of(content);
    &&& l.len() > 0
    &&& l[0] == "---"@
    &&& exists|i: int|
        {
            &&& 1 <= i < l.len()
            &&& trimmed(#[trigger] l[i]) == "name: ez-workflow"@
            &&& forall|j: int| 1 <= j <= i ==> l[j] != "---"@
        }
}

/// Whether a text is this skill: its front matter names it.
pub fn is_ez_workflow_skill(content: &str) -> (r: bool)
    ensures
        r == is_workflow(content@),
{
    let all: Vec<String> = lines(content);
    let ghost l = views(all@);
    assert(l.len() == all.len());
    if all.len() == 0 {
        return false;
    }
    assert(l[0] == all@[0]@);
    if !same(&all[0], "---") {
        return false;
    }
    let mut i: usize = 1;
    while i < all.len()
        invariant
            1 <= i <= all.len(),
            l == views(all@),
            l == lines_of(content@),
            l[0] == "---"@,
            forall|j: int| 1 <= j < i ==> l[j] != "---"@,
            forall|j: int| 1 <= j < i ==> trimmed(#[trigger] l[j]) != "name: ez-workflow"@,
        decreases all.len() - i,
    {
        assert(l[i as int] == all@[i as int]@);
        if same(&all[i], "---") {
            return false;
        }
        if same(trim(&all[i]), "name: ez-workflow") {
            return true;
        }
        i += 1;
    }
    false
}

/// What stands at a path.
#[derive(Debug)]
pub enum Entry {
    Missing,
    /// A link, with where it leads.
    Link(String),
    /// A directory: its entries, each with whether it is a file, and the text of `SKILL.md` in
    /// it where that was read.
    Directory { entries: Vec<(String, bool)>, skill: Option<String> },
    /// Anything else.
    Other,
}

/// The text of a copy of the skill that was made for an agent: all that its directory holds is
/// that file.
pub open spec fn copy_of(e: Entry) -> Option<Seq<char>> {
    match e {
        Entry::Directory { entries, skill } => match skill {
            Some(t) => if entries@.len() == 1 && entries@[0].0@ == "SKILL.md"@ && entries@[0].1
                && is_workflow(t@) {
                Some(t@)
            } else {
                None
            },
            None => None,
        },
        _ => None,
    }
}

/// The text of a copy of the skill that was made for an agent.
pub fn managed_fallback_copy_content(entry: &Entry) -> (r: Option<String>)
    ensures
        opt_view(r) == copy_of(*entry),
{
    match entry {
        Entry::Directory { entries, skill } => {
            if entries.len() != 1 || !same(&entries[0].0, "SKILL.md") || !entries[0].1 {
                return None;
            }
            match skill {
                Some(t) => if is_ez_workflow_skill(t) {
                    Some(t.clone())
                } else {
                    None
                },
                None => None,
            }
        },
        _ => None,
    }
}

/// What has to be done for one agent.
#[derive(Debug)]
pub enum AgentAction {
    /// Nothing: all is as it should be.
    Nothing,
    /// A link to the target; a copy where links are not available.
    Link(String),
    /// The same, in place of the link that is there.
    Relink(String),
    /// The copy gets the current text.
    Rewrite,
    /// Nothing: what is there belongs to someone else.
    Preserve,
}

/// The contents of an `AgentAction`.
#[verifier::ext_equal]
pub enum ActionView {
    Nothing,
    Link(Seq<char>),
    Relink(Seq<char>),
    Rewrite,
    Preserve,
}

impl View for AgentAction {
    type V = ActionView;

    open spec fn view(&self) -> ActionView {
        match *self {
            AgentAction::Nothing => ActionView::Nothing,
            AgentAction::Link(t) => ActionView::Link(t@),
            AgentAction::Relink(t) => ActionView::Relink(t@),
            AgentAction::Rewrite => ActionView::Rewrite,
            AgentAction::Preserve => ActionView::Preserve,
        }
    }
}

/// Where an agent's link has to lead: from the directory that holds it to the skill.
pub open spec fn link_target(target_dir: Seq<char>, link_dir: Seq<char>) -> Seq<char> {
    way(path_steps(link_dir).drop_last(), path_steps(target_dir))
}

/// The message that a path has no directory around it.
pub open spec fn no_parent_text() -> Seq<char> {
    "skill symlink path must have a parent directory"@
}

fn expected_target(target_dir: &str, link_dir: &str) -> (r: Result<String, EzError>)
    ensures
        match r {
            Ok(t) => path_names(link_dir@).len() > 0 && t@ == link_target(target_dir@, link_dir@),
            Err(e) => path_names(link_dir@).len() == 0 && e@ == ErrorView::Other(no_parent_text()),
        },
{
    let names: Vec<String> = names_in_path(link_dir);
    assert(views(names@).len() == names.len());
    if names.len() == 0 {
        return Err(
            EzError::Other(String::from_str("skill symlink path must have a parent directory")),
        );
    }
    let link: Vec<String> = steps_in(link_dir);
    let target: Vec<String> = steps_in(target_dir);
    assert(views(link@).len() == link.len());
    assert(views(link@).take(link.len() - 1) =~= views(link@).drop_last());
    Ok(find_way(&link, link.len() - 1, &target))
}

/// What has to be done for one agent.
pub open spec fn agent_action(
    target_dir: Seq<char>,
    link_dir: Seq<char>,
    entry: Entry,
    content: Seq<char>,
) -> ActionView {
    let target = link_target(target_dir, link_dir);
    match entry {
        Entry::Missing => ActionView::Link(target),
        Entry::Link(t) => if same_way(t@, target) {
            ActionView::Nothing
        } else {
            ActionView::Relink(target)
        },
        _ => match copy_of(entry) {
            Some(t) => if t == content {
                ActionView::Nothing
            } else {
                ActionView::Rewrite
            },
            None => ActionView::Preserve,
        },
    }
}

/// What has to be done for one agent. A link that leads elsewhere is replaced, a copy brought up
/// to date; what is neither stays.
pub fn ensure_agent_skill_target(
    target_dir: &str,
    link_dir: &str,
    entry: &Entry,
    content: &str,
) -> (r: Result<AgentAction, EzError>)
    ensures
        match r {
            Ok(a) => path_names(link_dir@).len() > 0 && a@ == agent_action(
                target_dir@,
                link_dir@,
                *entry,
                content@,
            ),
            Err(e) => path_names(link_dir@).len() == 0 && e@ == ErrorView::Other(no_parent_text()),
        },
{
    let target: String = match expected_target(target_dir, link_dir) {
        Ok(t) => t,
        Err(e) => return Err(e),
    };
    match entry {
        Entry::Missing => Ok(AgentAction::Link(target)),
        Entry::Link(t) => if is_same_way(t, &target) {
            Ok(AgentAction::Nothing)
        } else {
            Ok(AgentAction::Relink(target))
        },
        _ => match managed_fallback_copy_content(entry) {
            Some(t) => if same(&t, content) {
                Ok(AgentAction::Nothing)
            } else {
                Ok(AgentAction::Rewrite)
            },
            None => Ok(AgentAction::Preserve),
        },
    }
}

/// What was done for one agent. `linked` tells whether a link could be made.
pub fn install_status(action: &AgentAction, linked: bool) -> (r: AgentInstallStatus)
    ensures
        r == match *action {
            AgentAction::Nothing => AgentInstallStatus::Unchanged,
            AgentAction::Link(_) | AgentAction::Relink(_) => if linked {
                AgentInstallStatus::Linked
            } else {
                AgentInstallStatus::Copied
            },
            AgentAction::Rewrite => AgentInstallStatus::Copied,
            AgentAction::Preserve => AgentInstallStatus::PreservedExisting,
        },
{
    match action {
        AgentAction::Nothing => AgentInstallStatus::Unchanged,
        AgentAction::Link(_) | AgentAction::Relink(_) => if linked {
            AgentInstallStatus::Linked
        } else {
            AgentInstallStatus::Copied
        },
        AgentAction::Rewrite => AgentInstallStatus::Copied,
        AgentAction::Preserve => AgentInstallStatus::PreservedExisting,
    }
}

/// Whether an entry is one that an installation made for an agent.
pub open spec fn is_managed(target_dir: Seq<char>, link_dir: Seq<char>, entry: Entry) -> bool {
    match entry {
        Entry::Missing => false,
        Entry::Link(t) => same_way(t@, link_target(target_dir, link_dir)),
        _ => copy_of(entry) is Some,
    }
}

/// Whether an entry is one that an installation made for an agent, and that may be removed.
pub fn is_managed_agent_skill_target(target_dir: &str, link_dir: &str, entry: &Entry) -> (r: Result<
    bool,
    EzError,
>)
    ensures
        match r {
            Ok(b) => b == is_managed(target_dir@, link_dir@, *entry),
            Err(e) => entry is Link && path_names(link_dir@).len() == 0 && e@ == ErrorView::Other(
                no_parent_text(),
            ),
        },
        entry is Link && path_names(link_dir@).len() == 0 ==> r is Err,
{
    match entry {
        Entry::Missing => Ok(false),
        Entry::Link(t) => match expected_target(target_dir, link_dir) {
            Ok(x) => Ok(is_same_way(t, &x)),
            Err(e) => Err(e),
        },
        _ => Ok(managed_fallback_copy_content(entry).is_some()),
    }
}

/// What an installation leaves for an agent is what it would make: installing again changes
/// nothing, and an uninstallation may remove it. This holds of the link, and of the copy where
/// the text is this skill.
pub proof fn law_install_is_idempotent(
    target_dir: Seq<char>,
    link_dir: Seq<char>,
    entry: Entry,
    content: Seq<char>,
)
    requires
        is_workflow(content),
        (entry matches Entry::Link(t) && same_way(t@, link_target(target_dir, link_dir))) || is_copy(
            entry,
            content,
        ),
    ensures
        agent_action(target_dir, link_dir, entry, content) == ActionView::Nothing,
        is_managed(target_dir, link_dir, entry),
{
}

/// What an uninstallation leaves alone, other than a link, an installation does not replace
/// either.
pub proof fn law_custom_skill_is_kept(
    target_dir: Seq<char>,
    link_dir: Seq<char>,
    entry: Entry,
    content: Seq<char>,
)
    requires
        !is_managed(target_dir, link_dir, entry),
        !(entry is Missing),
        !(entry is Link),
    ensures
        agent_action(target_dir, link_dir, entry, content) == ActionView::Preserve,
{
}

/// Whether the file of the skill has to be written: it is missing or holds another text.
pub fn canonical_stale(existing: &Option<String>, content: &str) -> (r: bool)
    ensures
        r == (opt_view(*existing) != Some(content@)),
{
    match existing {
        Some(t) => !same(t, content),
        None => true,
    }
}

/// Where the skill stands.
#[derive(Debug)]
pub struct SkillPlaces {
    pub dir: String,
    pub file: String,
    /// Where agents look for it.
    pub agents: Vec<String>,
}

impl SkillPlaces {
    /// Whether these are the places under a directory: those of the other agents given, and the
    /// one that is always served.
    pub open spec fn under(self, root: Seq<char>, other_roots: Seq<Seq<char>>) -> bool {
        &&& self.dir@ == canonical_dir(root)
        &&& self.file@ == path_joined(canonical_dir(root), "SKILL.md"@)
        &&& views(self.agents@) == agent_dirs(root, served_roots(other_roots))
    }
}

/// Where the skill stands under a directory.
pub fn skill_places(root: &str, other_roots: &Vec<String>) -> (r: SkillPlaces)
    ensures
        r.under(root@, views(other_roots@)),
{
    SkillPlaces {
        dir: canonical_skill_dir(root),
        file: canonical_skill_file(root),
        agents: agent_skill_dirs(root, other_roots),
    }
}

/// Where the skill is installed: under the root of the repository.
pub fn install(root: &str, other_roots: &Vec<String>) -> (r: SkillPlaces)
    ensures
        r.under(root@, views(other_roots@)),
{
    skill_places(root, other_roots)
}

/// Where the skill is uninstalled from: under the root of the repository.
pub fn uninstall(root: &str, other_roots: &Vec<String>) -> (r: SkillPlaces)
    ensures
        r.under(root@, views(other_roots@)),
{
    skill_places(root, other_roots)
}

/// What is said of an installation.
#[derive(Debug)]
pub struct InstallReport {
    /// Whether anything was changed.
    pub changed: bool,
    pub message: String,
    /// Whether copies had to stand in for links.
    pub copied: bool,
    pub warnings: Vec<String>,
}

/// Whether a status is among the first `n`.
pub open spec fn any_status(s: Seq<AgentInstallStatus>, n: int, x: AgentInstallStatus) -> bool {
    exists|i: int| 0 <= i < n && #[trigger] s[i] == x
}

/// The warnings for the directories that were left as they are.
pub open spec fn kept_warnings(s: Seq<AgentInstallStatus>, dirs: Seq<Seq<char>>) -> Seq<Seq<char>>
    decreases s.len(),
{
    if s.len() == 0 {
        Seq::empty()
    } else {
        let low = kept_warnings(s.drop_last(), dirs);
        if s.last() == AgentInstallStatus::PreservedExisting {
            low.push(
                "Preserved existing skill directory at `"@ + dirs[s.len() - 1]
                    + "` instead of replacing it with a symlink"@,
            )
        } else {
            low
        }
    }
}

/// What is said of an installation: `written` tells whether the skill's file changed, and
/// `statuses` what was done for the agent of each directory.
pub fn install_report(written: bool, dirs: &Vec<String>, statuses: &Vec<AgentInstallStatus>) -> (r:
    InstallReport)
    requires
        dirs@.len() == statuses@.len(),
    ensures
        ({
            let n = statuses@.len() as int;
            let linked = any_status(statuses@, n, AgentInstallStatus::Linked);
            let copied = any_status(statuses@, n, AgentInstallStatus::Copied);
            &&& r.changed == (written || linked || copied)
            &&& r.message@ == if written {
                "Installed ez-workflow skill"@
            } else if linked || copied {
                "Updated ez-workflow skill links"@
            } else {
                "ez-workflow skill is already up to date"@
            }
            &&& r.copied == copied
            &&& views(r.warnings@) == kept_warnings(statuses@, views(dirs@))
        }),
{
    let mut linked: bool = false;
    let mut copied: bool = false;
    let mut warnings: Vec<String> = Vec::new();
    let mut i: usize = 0;
    assert(views(warnings@) =~= Seq::<Seq<char>>::empty());
    assert(statuses@.take(0) =~= Seq::<AgentInstallStatus>::empty());
    while i < statuses.len()
        invariant
            i <= statuses.len(),
            dirs@.len() == statuses@.len(),
            linked == any_status(statuses@, i as int, AgentInstallStatus::Linked),
            copied == any_status(statuses@, i as int, AgentInstallStatus::Copied),
            views(warnings@) == kept_warnings(statuses@.take(i as int), views(dirs@)),
        decreases statuses.len() - i,
    {
        let ghost held = views(warnings@);
        assert(statuses@.take(i + 1).drop_last() =~= statuses@.take(i as int));
        assert(statuses@.take(i + 1).last() == statuses@[i as int]);
        assert(views(dirs@)[i as int] == dirs@[i as int]@);
        assert forall|x: AgentInstallStatus| #[trigger]
            any_status(statuses@, i + 1, x) == (any_status(statuses@, i as int, x)
                || statuses@[i as int] == x) by {
            if statuses@[i as int] == x {
                assert(any_status(statuses@, i + 1, x));
            } else if any_status(statuses@, i as int, x) {
                let j = choose|j: int| 0 <= j < i && #[trigger] statuses@[j] == x;
                assert(statuses@[j] == x);
                assert(any_status(statuses@, i + 1, x));
            }
        }
        match statuses[i] {
            AgentInstallStatus::Unchanged => {},
            AgentInstallStatus::Linked => {
                linked = true;
            },
            AgentInstallStatus::Copied => {
                copied = true;
            },
            AgentInstallStatus::PreservedExisting => {
                let w: String = String::from_str("Preserved existing skill directory at `").concat(
                    &dirs[i],
                ).concat("` instead of replacing it with a symlink");
                let ghost t = w@;
                warnings.push(w);
                assert(views(warnings@) =~= held.push(t));
            },
        }
        i += 1;
    }
    assert(statuses@.take(statuses.len() as int) =~= statuses@);
    let message: &str = if written {
        "Installed ez-workflow skill"
    } else if linked || copied {
        "Updated ez-workflow skill links"
    } else {
        "ez-workflow skill is already up to date"
    };
    InstallReport {
        changed: written || linked || copied,
        message: message.to_owned(),
        copied,
        warnings,
    }
}

/// What stands where the skill's file should be.
#[derive(Debug)]
pub enum SkillFile {
    Missing,
    /// A file or a link.
    File,
    /// Anything else.
    Other,
    /// It cannot be told, and why.
    Unknown(String),
}

/// What an uninstallation removes.
#[derive(Debug)]
pub struct UninstallPlan {
    /// What was made for agents.
    pub agents: Vec<String>,
    /// Whether the skill's file is removed, or why that cannot be told.
    pub file: Result<bool, EzError>,
}

/// The directories with entries that an installation made.
pub open spec fn managed_dirs(
    target_dir: Seq<char>,
    dirs: Seq<Seq<char>>,
    entries: Seq<Entry>,
) -> Seq<Seq<char>>
    decreases entries.len(),
{
    if entries.len() == 0 {
        Seq::empty()
    } else {
        let low = managed_dirs(target_dir, dirs, entries.drop_last());
        let d = dirs[entries.len() - 1];
        if is_managed(target_dir, d, entries.last()) {
            low.push(d)
        } else {
            low
        }
    }
}

/// Whether one of the entries is a link at a path without a directory around it.
pub open spec fn stray_link(dirs: Seq<Seq<char>>, entries: Seq<Entry>) -> bool {
    exists|i: int|
        0 <= i < entries.len() && (#[trigger] entries[i]) is Link && path_names(dirs[i]).len() == 0
}

/// What an uninstallation removes, by what stands at the agents' places and at the skill's file:
/// what an installation made, and nothing else.
pub fn uninstall_plan(places: &SkillPlaces, entries: &Vec<Entry>, file: SkillFile) -> (r: Result<
    UninstallPlan,
    EzError,
>)
    requires
        entries@.len() == places.agents@.len(),
    ensures
        match r {
            Ok(p) => {
                &&& !stray_link(views(places.agents@), entries@)
                &&& views(p.agents@) == managed_dirs(
                    places.dir@,
                    views(places.agents@),
                    entries@,
                )
                &&& match file {
                    SkillFile::Unknown(t) => p.file matches Err(e) && e@ == ErrorView::Other(t@),
                    _ => p.file matches Ok(b) && b == file is File,
                }
            },
            Err(e) => stray_link(views(places.agents@), entries@) && e@ == ErrorView::Other(
                no_parent_text(),
            ),
        },
{
    let ghost dirs = views(places.agents@);
    let mut agents: Vec<String> = Vec::new();
    let mut i: usize = 0;
    assert(views(agents@) =~= Seq::<Seq<char>>::empty());
    assert(entries@.take(0) =~= Seq::<Entry>::empty());
    while i < entries.len()
        invariant
            i <= entries.len(),
            entries@.len() == places.agents@.len(),
            dirs == views(places.agents@),
            forall|j: int|
                0 <= j < i ==> !((#[trigger] entries@[j]) is Link && path_names(dirs[j]).len()
                    == 0),
            views(agents@) == managed_dirs(places.dir@, dirs, entries@.take(i as int)),
        decreases entries.len() - i,
    {
        let ghost held = views(agents@);
        let d: &String = &places.agents[i];
        assert(dirs[i as int] == d@);
        assert(entries@.take(i + 1).drop_last() =~= entries@.take(i as int));
        assert(entries@.take(i + 1).last() == entries@[i as int]);
        match is_managed_agent_skill_target(&places.dir, d, &entries[i]) {
            Ok(b) => if b {
                agents.push(d.clone());
                assert(views(agents@) =~= held.push(d@));
            },
            Err(e) => {
                assert(entries@[i as int] is Link);
                return Err(e);
            },
        }
        i += 1;
    }
    assert(entries@.take(entries.len() as int) =~= entries@);
    let file: Result<bool, EzError> = match file {
        SkillFile::File => Ok(true),
        SkillFile::Missing | SkillFile::Other => Ok(false),
        SkillFile::Unknown(t) => Err(EzError::Other(t)),
    };
    Ok(UninstallPlan { agents, file })
}

/// What is said of an uninstallation.
pub fn uninstall_message(removed: bool) -> (r: String)
    ensures
        r@ == if removed {
            "Uninstalled ez-workflow skill"@
        } else {
            "ez-workflow skill is not installed in this repo"@
        },
{
    if removed {
        String::from_str("Uninstalled ez-workflow skill")
    } else {
        String::from_str("ez-workflow skill is not installed in this repo")
    }
}

/// Whether the skill's directory is removed too, by what it still holds; nothing is given where
/// there is no such directory.
pub fn removes_dir(left: &Option<Vec<String>>) -> (r: bool)
    ensures
        r == (left matches Some(names) && names@.len() == 0),
{
    match left {
        Some(names) => names.len() == 0,
        None => false,
    }
}

/// Whether an entry is a directory with nothing but the file of the skill, and that with this
/// text.
pub open spec fn is_copy(e: Entry, content: Seq<char>) -> bool {
    e matches Entry::Directory { entries, skill } && entries@.len() == 1 && entries@[0].0@
        == "SKILL.md"@ && entries@[0].1 && (skill matches Some(t) && t@ == content)
}

/// What an installation leaves at an agent's place: the link, or a copy where links are not
/// available; and what was there where there is nothing to do.
pub open spec fn installs(
    target_dir: Seq<char>,
    link_dir: Seq<char>,
    content: Seq<char>,
    before: Entry,
    after: Entry,
) -> bool {
    match agent_action(target_dir, link_dir, before, content) {
        ActionView::Nothing | ActionView::Preserve => after == before,
        ActionView::Link(t) | ActionView::Relink(t) => (after matches Entry::Link(x) && x@ == t)
            || is_copy(after, content),
        ActionView::Rewrite => is_copy(after, content),
    }
}

/// What an uninstallation leaves at an agent's place.
pub open spec fn uninstalled(target_dir: Seq<char>, link_dir: Seq<char>, entry: Entry) -> Entry {
    if is_managed(target_dir, link_dir, entry) {
        Entry::Missing
    } else {
        entry
    }
}

/// What uninstallations leave at all the agents' places.
pub open spec fn all_uninstalled(
    target_dir: Seq<char>,
    dirs: Seq<Seq<char>>,
    entries: Seq<Entry>,
) -> Seq<Entry> {
    Seq::new(entries.len(), |i: int| uninstalled(target_dir, dirs[i], entries[i]))
}

/// An uninstallation after an installation removes just what stands there for the skill: every
/// agent's place that the installation filled or found in order is empty afterwards, and one that
/// it left to someone else is as it was. A further uninstallation removes nothing.
pub proof fn law_uninstall_undoes_install(
    target_dir: Seq<char>,
    dirs: Seq<Seq<char>>,
    content: Seq<char>,
    before: Seq<Entry>,
    after: Seq<Entry>,
)
    requires
        is_workflow(content),
        before.len() == dirs.len(),
        after.len() == dirs.len(),
        forall|i: int|
            0 <= i < dirs.len() ==> installs(
                target_dir,
                #[trigger] dirs[i],
                content,
                before[i],
                after[i],
            ),
    ensures
        ({
            let left = all_uninstalled(target_dir, dirs, after);
            &&& forall|i: int|
                0 <= i < dirs.len() ==> (#[trigger] left[i]) == if agent_action(
                    target_dir,
                    dirs[i],
                    before[i],
                    content,
                ) == ActionView::Preserve {
                    before[i]
                } else {
                    Entry::Missing
                }
            &&& managed_dirs(target_dir, dirs, left) == Seq::<Seq<char>>::empty()
        }),
{
    let left = all_uninstalled(target_dir, dirs, after);
    assert forall|i: int| 0 <= i < dirs.len() implies (#[trigger] left[i]) == if agent_action(
        target_dir,
        dirs[i],
        before[i],
        content,
    ) == ActionView::Preserve {
        before[i]
    } else {
        Entry::Missing
    } by {
        assert(installs(target_dir, dirs[i], content, before[i], after[i]));
    }
    lemma_nothing_managed(target_dir, dirs, left);
}

/// The places that an uninstallation empties are those whose entries it takes for the skill's.
pub proof fn law_uninstall_empties_managed_places(
    target_dir: Seq<char>,
    dirs: Seq<Seq<char>>,
    entries: Seq<Entry>,
    i: int,
)
    requires
        0 <= i < entries.len() <= dirs.len(),
        is_managed(target_dir, dirs[i], entries[i]),
    ensures
        managed_dirs(target_dir, dirs, entries).contains(dirs[i]),
        all_uninstalled(target_dir, dirs, entries)[i] is Missing,
    decreases entries.len(),
{
    let low = managed_dirs(target_dir, dirs, entries.drop_last());
    if i == entries.len() - 1 {
        assert(low.push(dirs[i]).last() == dirs[i]);
    } else {
        law_uninstall_empties_managed_places(target_dir, dirs, entries.drop_last(), i);
        let k = choose|k: int| 0 <= k < low.len() && low[k] == dirs[i];
        let d = dirs[entries.len() - 1];
        assert(low.push(d)[k] == dirs[i]);
    }
}

proof fn lemma_nothing_managed(target_dir: Seq<char>, dirs: Seq<Seq<char>>, entries: Seq<Entry>)
    requires
        entries.len() <= dirs.len(),
        forall|i: int|
            0 <= i < entries.len() ==> !is_managed(target_dir, dirs[i], #[trigger] entries[i]),
    ensures
        managed_dirs(target_dir, dirs, entries) == Seq::<Seq<char>>::empty(),
    decreases entries.len(),
{
    if entries.len() > 0 {
        assert forall|i: int| 0 <= i < entries.len() - 1 implies !is_managed(
            target_dir,
            dirs[i],
            #[trigger] entries.drop_last()[i],
        ) by {
            assert(entries.drop_last()[i] == entries[i]);
        }
        lemma_nothing_managed(target_dir, dirs, entries.drop_last());
        assert(entries.last() == entries[entries.len() - 1]);
    }
}

/// Every installation has a place under `.codex/skills` of the repository, whatever other agents
/// there are.
pub proof fn law_known_agent_is_served(places: SkillPlaces, root: Seq<char>, others: Seq<Seq<char>>)
    requires
        places.under(root, others),
    ensures
        views(places.agents@).contains(
            path_joined(path_joined(root, ".codex/skills"@), "ez-workflow"@),
        ),
        views(places.agents@).len() == others.len() + 1,
{
    let dirs = agent_dirs(root, served_roots(others));
    assert(dirs[others.len() as int] == path_joined(
        path_joined(root, ".codex/skills"@),
        "ez-workflow"@,
    ));
}

/// The way between two places does not depend on what they share from the root.
pub proof fn law_way_leaves_out_what_is_shared(
    p: Seq<Seq<char>>,
    from: Seq<Seq<char>>,
    to: Seq<Seq<char>>,
)
    ensures
        way(p + from, p + to) == way(from, to),
        way(p, p) == "."@,
{
    lemma_shared_front(p, from, to);
    lemma_shared_front(p, Seq::empty(), Seq::empty());
    let n = shared(from, to) as int;
    lemma_shared_bound(from, to);
    assert((p + to).skip(p.len() + n) =~= to.skip(n));
    assert(p + Seq::<Seq<char>>::empty() =~= p);
    assert(p.skip(p.len() as int) =~= Seq::<Seq<char>>::empty());
}

/// Between places that share nothing, the way goes up once for each step of the first and down
/// the second.
pub proof fn law_way_goes_up_and_down(from: Seq<Seq<char>>, to: Seq<Seq<char>>)
    requires
        from.len() > 0 || to.len() > 0,
        from.len() == 0 || to.len() == 0 || from[0] != to[0],
        to.len() > 0 ==> to[0] != "/"@,
    ensures
        way(from, to) == joined(Seq::new(from.len(), |i: int| ".."@) + to, "/"@),
{
    assert(to.skip(0) =~= to);
    assert(Seq::new((from.len() - 0) as nat, |i: int| ".."@) =~= Seq::new(
        from.len(),
        |i: int| ".."@,
    ));
}

proof fn lemma_shared_front(p: Seq<Seq<char>>, from: Seq<Seq<char>>, to: Seq<Seq<char>>)
    ensures
        shared(p + from, p + to) == p.len() + shared(from, to),
    decreases p.len(),
{
    if p.len() == 0 {
        assert(p + from =~= from);
        assert(p + to =~= to);
    } else {
        let q = p.drop_first();
        lemma_shared_front(q, from, to);
        assert((p + from).drop_first() =~= q + from);
        assert((p + to).drop_first() =~= q + to);
        assert((p + from)[0] == p[0] && (p + to)[0] == p[0]);
    }
}

proof fn lemma_shared_bound(from: Seq<Seq<char>>, to: Seq<Seq<char>>)
    ensures
        shared(from, to) <= from.len(),
        shared(from, to) <= to.len(),
    decreases from.len(),
{
    if from.len() > 0 && to.len() > 0 && from[0] == to[0] {
        lemma_shared_bound(from.drop_first(), to.drop_first());
    }
}

/// A place with nothing in it gets a link; a link elsewhere is set right; a copy is brought up to
/// date; anything else is left alone.
pub proof fn law_place_is_brought_up_to_date(
    target_dir: Seq<char>,
    link_dir: Seq<char>,
    entry: Entry,
    content: Seq<char>,
)
    ensures
        entry is Missing ==> (agent_action(target_dir, link_dir, entry, content) is Link),
        entry is Link ==> (agent_action(target_dir, link_dir, entry, content) is Nothing
            || agent_action(target_dir, link_dir, entry, content) is Relink),
        entry matches Entry::Link(t) ==> (agent_action(target_dir, link_dir, entry, content) is Nothing
            <==> same_way(t@, link_target(target_dir, link_dir))),
        copy_of(entry) matches Some(t) ==> (t != content ==> agent_action(
            target_dir,
            link_dir,
            entry,
            content,
        ) is Rewrite),
        copy_of(entry) is Some ==> (entry matches Entry::Directory { entries, skill } && entries@.len()
            == 1 && entries@[0].0@ == "SKILL.md"@ && skill is Some && skill->0@ == copy_of(
            entry,
        )->0),
{
}

/// A text is the skill exactly where a header opens it and names it before the header ends.
pub proof fn law_skill_is_named_in_its_header(content: Seq<char>, i: int)
    requires
        lines_of(content).len() > 0,
    ensures
        is_workflow(content) ==> lines_of(content)[0] == "---"@,
        1 <= i < lines_of(content).len() && lines_of(content)[i] == "---"@ && (forall|j: int|
            1 <= j < i ==> trimmed(#[trigger] lines_of(content)[j]) != "name: ez-workflow"@)
            ==> !is_workflow(content),
        (forall|j: int|
            1 <= j < lines_of(content).len() ==> trimmed(#[trigger] lines_of(content)[j])
                != "name: ez-workflow"@) ==> !is_workflow(content),
{
    let l = lines_of(content);
    if 1 <= i < l.len() && l[i] == "---"@ && is_workflow(content) && (forall|j: int|
        1 <= j < i ==> trimmed(#[trigger] l[j]) != "name: ez-workflow"@) {
        let k = choose|k: int|
            {
                &&& 1 <= k < l.len()
                &&& trimmed(#[trigger] l[k]) == "name: ez-workflow"@
                &&& forall|j: int| 1 <= j <= k ==> l[j] != "---"@
            };
        assert(l[i] == "---"@);
        assert(k < i);
    }
}

/// A warning comes for each place that was kept, and for no other.
pub proof fn law_kept_places_are_warned_of(
    s: Seq<AgentInstallStatus>,
    x: AgentInstallStatus,
    dirs: Seq<Seq<char>>,
)
    ensures
        x == AgentInstallStatus::PreservedExisting ==> kept_warnings(s.push(x), dirs).len()
            == kept_warnings(s, dirs).len() + 1,
        x != AgentInstallStatus::PreservedExisting ==> kept_warnings(s.push(x), dirs)
            == kept_warnings(s, dirs),
        any_status(s, s.len() as int, x) <==> s.contains(x),
{
    assert(s.push(x).drop_last() =~= s);
    if s.contains(x) {
        let i = choose|i: int| 0 <= i < s.len() && s[i] == x;
        assert(s[i] == x);
    }
}

} // verus!
