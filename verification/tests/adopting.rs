use ez_stack::cmd::adopt::{
    adopt_receipt_value, all_have_open_pr, branch_source, build_adopt_graph,
    build_explicit_chain_candidates, build_native_adopt_candidates, format_pr_number, is_active_pr,
    named_candidates, native_pull_candidates, native_stack_title, orphan_local_prs,
    pull_candidates, pull_source, requested_pull, retain_active, run,
    validate_existing_branch_pr_refs, validate_managed_adopt_candidates, AdoptCandidate,
    AdoptSource, AncestorSearch, PullSource, RefFacts,
};
use ez_stack::cmd::adoption::{AdoptAction, Adoption};
use ez_stack::git::Reply;
use ez_stack::github::{NativeStackInfo, NativeStackLookup, PrInfo};
use ez_stack::json::to_value;
use ez_stack::name_map::NameMap;
use ez_stack::stack::StackState;

fn make_pr(branch: &str, base: &str, number: u64) -> (String, PrInfo) {
    (
        branch.to_string(),
        PrInfo {
            number,
            url: format!("https://github.com/org/repo/pull/{number}"),
            state: "OPEN".to_string(),
            title: format!("PR for {branch}"),
            base: base.to_string(),
            is_draft: false,
            merged: false,
        },
    )
}

fn put(prs: &mut NameMap<PrInfo>, branch: &str, base: &str, number: u64) {
    let (k, v) = make_pr(branch, base, number);
    prs.insert(k, v);
}

fn names(graph: &[AdoptCandidate]) -> Vec<&str> {
    graph.iter().map(|c| c.branch.as_str()).collect()
}

fn bases(graph: &[AdoptCandidate]) -> Vec<&str> {
    graph.iter().map(|c| c.base.as_str()).collect()
}

#[test]
fn build_adopt_graph_finds_linear_stack() {
    let mut prs = NameMap::new();
    put(&mut prs, "feat/a", "main", 1);
    put(&mut prs, "feat/b", "feat/a", 2);
    put(&mut prs, "feat/c", "feat/b", 3);

    let graph = build_adopt_graph("main", &prs);

    assert_eq!(graph.len(), 3);
    let names = names(&graph);
    assert!(
        names.iter().position(|&n| n == "feat/a").unwrap()
            < names.iter().position(|&n| n == "feat/b").unwrap()
    );
    assert!(
        names.iter().position(|&n| n == "feat/b").unwrap()
            < names.iter().position(|&n| n == "feat/c").unwrap()
    );
}

#[test]
fn build_adopt_graph_excludes_branches_not_rooted_on_trunk() {
    let mut prs = NameMap::new();
    put(&mut prs, "feat/a", "main", 1);
    put(&mut prs, "feat/orphan", "develop", 2);

    let graph = build_adopt_graph("main", &prs);

    assert_eq!(graph.len(), 1);
    assert_eq!(graph[0].branch, "feat/a");
}

#[test]
fn build_adopt_graph_excludes_merged_and_closed_prs() {
    let mut prs = NameMap::new();
    put(&mut prs, "feat/a", "main", 1);
    let (k, mut v) = make_pr("feat/merged", "main", 2);
    v.merged = true;
    prs.insert(k, v);
    let (k, mut v) = make_pr("feat/closed", "main", 3);
    v.state = "CLOSED".to_string();
    prs.insert(k, v);

    let graph = build_adopt_graph("main", &prs);

    assert_eq!(graph.len(), 1);
    assert_eq!(graph[0].branch, "feat/a");
}

#[test]
fn build_adopt_graph_handles_diamond_stacks() {
    let mut prs = NameMap::new();
    put(&mut prs, "feat/base", "main", 1);
    put(&mut prs, "feat/left", "feat/base", 2);
    put(&mut prs, "feat/right", "feat/base", 3);

    let graph = build_adopt_graph("main", &prs);

    assert_eq!(graph.len(), 3);
    let names = names(&graph);
    let base_pos = names.iter().position(|&n| n == "feat/base").unwrap();
    let left_pos = names.iter().position(|&n| n == "feat/left").unwrap();
    let right_pos = names.iter().position(|&n| n == "feat/right").unwrap();
    assert!(base_pos < left_pos);
    assert!(base_pos < right_pos);
}

#[test]
fn build_adopt_graph_handles_cycle_gracefully() {
    let mut prs = NameMap::new();
    put(&mut prs, "feat/a", "feat/b", 1);
    put(&mut prs, "feat/b", "feat/a", 2);

    let graph = build_adopt_graph("main", &prs);

    assert!(graph.is_empty());
}

#[test]
fn build_adopt_graph_empty_prs_returns_empty() {
    let prs = NameMap::new();
    let graph = build_adopt_graph("main", &prs);
    assert!(graph.is_empty());
}

#[test]
fn build_adopt_graph_single_pr_on_trunk() {
    let mut prs = NameMap::new();
    put(&mut prs, "feat/solo", "main", 42);

    let graph = build_adopt_graph("main", &prs);

    assert_eq!(graph.len(), 1);
    assert_eq!(graph[0].branch, "feat/solo");
    assert_eq!(graph[0].pr_number, Some(42));
    assert_eq!(graph[0].base, "main");
}

#[test]
fn build_adopt_graph_deep_chain() {
    let mut prs = NameMap::new();
    put(&mut prs, "feat/a", "main", 1);
    put(&mut prs, "feat/b", "feat/a", 2);
    put(&mut prs, "feat/c", "feat/b", 3);
    put(&mut prs, "feat/d", "feat/c", 4);
    put(&mut prs, "feat/e", "feat/d", 5);

    let graph = build_adopt_graph("main", &prs);
    assert_eq!(graph.len(), 5);
    assert_eq!(names(&graph), vec!["feat/a", "feat/b", "feat/c", "feat/d", "feat/e"]);
}

#[test]
fn build_adopt_graph_preserves_draft_flag() {
    let mut prs = NameMap::new();
    let (k, mut v) = make_pr("feat/draft-branch", "main", 10);
    v.is_draft = true;
    prs.insert(k, v);

    let graph = build_adopt_graph("main", &prs);
    assert_eq!(graph.len(), 1);
    assert!(graph[0].is_draft);
}

#[test]
fn build_native_adopt_candidates_uses_native_order_over_reported_bases() {
    let (_, mut base) = make_pr("feat/base", "stale-base", 10);
    base.title = "Base".to_string();
    let (_, mut child) = make_pr("feat/child", "main", 11);
    child.title = "Child".to_string();

    let candidates = build_native_adopt_candidates(
        "main",
        &vec![("feat/base".to_string(), base), ("feat/child".to_string(), child)],
    );

    assert_eq!(names(&candidates), vec!["feat/base", "feat/child"]);
    assert_eq!(bases(&candidates), vec!["main", "feat/base"]);
}

#[test]
fn build_native_adopt_candidates_excludes_inactive_entries_and_rechains_to_trunk() {
    let (_, mut closed_base) = make_pr("feat/base", "main", 10);
    closed_base.state = "CLOSED".to_string();
    let (_, child) = make_pr("feat/child", "feat/base", 11);

    let candidates = build_native_adopt_candidates(
        "main",
        &vec![("feat/base".to_string(), closed_base), ("feat/child".to_string(), child)],
    );

    assert_eq!(candidates.len(), 1);
    assert_eq!(candidates[0].branch, "feat/child");
    assert_eq!(candidates[0].base, "main");
}

#[test]
fn build_explicit_chain_candidates_uses_argument_order_and_enriches_matching_prs() {
    let mut prs = NameMap::new();
    put(&mut prs, "feat/base", "main", 10);
    put(&mut prs, "feat/child", "feat/base", 11);

    let candidates = build_explicit_chain_candidates(
        "main",
        &vec!["feat/base".to_string(), "feat/child".to_string()],
        &prs,
    )
    .expect("explicit chain");

    assert_eq!(names(&candidates), vec!["feat/base", "feat/child"]);
    assert_eq!(bases(&candidates), vec!["main", "feat/base"]);
    assert_eq!(
        candidates.iter().map(|c| c.pr_number).collect::<Vec<_>>(),
        vec![Some(10), Some(11)]
    );
}

#[test]
fn build_explicit_chain_candidates_mixes_pr_backed_and_pr_less_and_rejects_base_mismatch() {
    let mut prs = NameMap::new();
    let (branch, mut pr) = make_pr("feat/child", "main", 11);
    pr.title = "Child PR".to_string();
    prs.insert(branch, pr);

    let err = build_explicit_chain_candidates(
        "main",
        &vec!["feat/base".to_string(), "feat/child".to_string()],
        &prs,
    )
    .expect_err("reported PR base must match explicit parent");
    assert!(err.message().contains("feat/child"));
    assert!(err.message().contains("reported base `main`"));
    assert!(err.message().contains("explicit parent is `feat/base`"));

    let mut prs = NameMap::new();
    put(&mut prs, "feat/child", "feat/base", 11);
    let candidates = build_explicit_chain_candidates(
        "main",
        &vec!["feat/base".to_string(), "feat/child".to_string()],
        &prs,
    )
    .expect("mixed explicit chain");
    assert_eq!(candidates[0].pr_number, None);
    assert_eq!(candidates[1].pr_number, Some(11));
    assert_eq!(candidates[0].title, "feat/base");
    assert_eq!(candidates[1].title, "PR for feat/child");
}

#[test]
fn build_explicit_chain_candidates_rejects_duplicate_branch_names() {
    let err = build_explicit_chain_candidates(
        "main",
        &vec!["feat/base".to_string(), "feat/base".to_string()],
        &NameMap::new(),
    )
    .expect_err("duplicate branch names must not create a self-parenting layer");

    assert!(err.message().contains("feat/base"));
    assert!(err.message().contains("more than once"));
}

fn candidate(branch: &str, base: &str, pr_number: u64) -> AdoptCandidate {
    AdoptCandidate {
        branch: branch.to_string(),
        base: base.to_string(),
        pr_number: Some(pr_number),
        title: format!("PR for {branch}"),
        is_draft: false,
    }
}

fn branch_candidate(branch: &str, base: &str) -> AdoptCandidate {
    AdoptCandidate {
        branch: branch.to_string(),
        base: base.to_string(),
        pr_number: None,
        title: branch.to_string(),
        is_draft: false,
    }
}

#[test]
fn validate_managed_adopt_candidates_allows_matching_metadata_and_missing_pr_number() {
    let mut state = StackState::new("main".to_string());
    state.add_branch("feat/base", "main", "base-head", None, None);
    state.set_pr_number("feat/base", Some(10)).expect("base");
    state.add_branch("feat/child", "feat/base", "child-head", None, None);

    validate_managed_adopt_candidates(
        &state,
        &vec![candidate("feat/base", "main", 10), candidate("feat/child", "feat/base", 11)],
        Some(77),
    )
    .expect("matching metadata should pass");
}

#[test]
fn validate_managed_adopt_candidates_rejects_parent_divergence_before_mutation() {
    let mut state = StackState::new("main".to_string());
    state.add_branch("feat/child", "feat/old-parent", "child-head", None, None);
    state.set_pr_number("feat/child", Some(11)).expect("child");

    let err = validate_managed_adopt_candidates(
        &state,
        &vec![candidate("feat/child", "main", 11)],
        Some(77),
    )
    .expect_err("parent divergence should abort");
    let message = err.message();
    assert!(message.contains("native stack #77"));
    assert!(message.contains("feat/child"));
    assert!(message.contains("local parent=`feat/old-parent`"));
    assert!(message.contains("remote parent=`main`"));
    assert!(message.contains("local PR=#11"));
    assert!(message.contains("remote PR=#11"));
}

#[test]
fn validate_managed_adopt_candidates_rejects_pr_number_divergence_before_mutation() {
    let mut state = StackState::new("main".to_string());
    state.add_branch("feat/child", "main", "child-head", None, None);
    state.set_pr_number("feat/child", Some(99)).expect("child");

    let err = validate_managed_adopt_candidates(
        &state,
        &vec![candidate("feat/child", "main", 11)],
        Some(77),
    )
    .expect_err("pr divergence should abort");
    let message = err.message();
    assert!(message.contains("native stack #77"));
    assert!(message.contains("feat/child"));
    assert!(message.contains("local parent=`main`"));
    assert!(message.contains("remote parent=`main`"));
    assert!(message.contains("local PR=#99"));
    assert!(message.contains("remote PR=#11"));
}

#[test]
fn validate_managed_adopt_candidates_rejects_parent_and_prless_conflicts_for_any_adoption() {
    let mut state = StackState::new("main".to_string());
    state.add_branch("feat/parent-conflict", "feat/old", "head", None, None);
    state.add_branch("feat/pr-conflict", "main", "head", None, None);
    state.set_pr_number("feat/pr-conflict", Some(99)).expect("branch");

    let err = validate_managed_adopt_candidates(
        &state,
        &vec![branch_candidate("feat/parent-conflict", "main")],
        None,
    )
    .expect_err("parent mismatch should abort");
    assert!(err.message().contains("feat/parent-conflict"));
    assert!(err.message().contains("local parent=`feat/old`"));
    assert!(err.message().contains("remote parent=`main`"));

    let err = validate_managed_adopt_candidates(
        &state,
        &vec![branch_candidate("feat/pr-conflict", "main")],
        None,
    )
    .expect_err("pr-less candidate against local PR metadata should abort");
    assert!(err.message().contains("feat/pr-conflict"));
    assert!(err.message().contains("local PR=#99"));
    assert!(err.message().contains("remote PR=none"));

    validate_managed_adopt_candidates(
        &state,
        &vec![candidate("feat/pr-conflict", "main", 99)],
        None,
    )
    .expect("matching PR metadata should pass");
}

#[test]
fn fetch_candidates_by_pr_number_prefers_native_stack_order_and_graphql_prs() {
    let (_, mut base) = make_pr("feat/base", "stale-parent", 10);
    base.title = "Base".to_string();
    let (_, mut child) = make_pr("feat/child", "main", 20);
    child.title = "Child".to_string();
    child.is_draft = true;
    let lookup = Ok(NativeStackLookup::Found(stack_of(vec![10, 20])));
    let Ok(PullSource::Native(info)) = pull_source(false, lookup) else {
        panic!("the native stack comes first");
    };
    assert_eq!(info.number, 88);
    let pulls = vec![
        Some(("feat/base".to_string(), base)),
        Some(("feat/child".to_string(), child)),
    ];
    let (title, candidates) =
        native_pull_candidates("main", 20, &info, pulls).expect("fetch native candidates");
    assert_eq!(title, "Child");
    assert_eq!(names(&candidates), vec!["feat/base", "feat/child"]);
    assert_eq!(bases(&candidates), vec!["main", "feat/base"]);
    assert_eq!(
        candidates.iter().map(|c| c.pr_number).collect::<Vec<_>>(),
        vec![Some(10), Some(20)]
    );
    assert!(candidates[1].is_draft);
}

fn stack_of(pull_requests: Vec<u64>) -> NativeStackInfo {
    NativeStackInfo { number: 88, base_ref: None, open: None, pull_requests }
}

#[test]
fn candidates_come_from_the_chain_only_where_there_is_no_native_stack() {
    let found = || Ok(NativeStackLookup::Found(stack_of(vec![10])));
    assert!(matches!(pull_source(true, found()), Ok(PullSource::Chain)));
    assert!(matches!(
        pull_source(false, Ok(NativeStackLookup::NotLinked)),
        Ok(PullSource::Chain)
    ));
    assert!(matches!(
        pull_source(false, Ok(NativeStackLookup::Unavailable)),
        Ok(PullSource::Chain)
    ));
    let err = pull_source(false, Err("auth failed".to_string())).unwrap_err();
    assert_eq!(err.message(), "auth failed");
    let err = requested_pull(7, None).unwrap_err();
    assert_eq!(err.message(), "PR #7 not found — make sure it exists and is accessible");
    assert_eq!(requested_pull(7, Some(make_pr("feat/a", "main", 7))).unwrap().0, "feat/a");
}

#[test]
fn an_absent_layer_of_a_native_stack_is_refused() {
    let info = stack_of(vec![10, 20, 30]);
    let pulls = vec![
        Some(make_pr("feat/a", "main", 10)),
        None,
        Some(make_pr("feat/c", "feat/b", 30)),
    ];
    let err = native_pull_candidates("main", 30, &info, pulls).unwrap_err();
    assert_eq!(
        err.message(),
        "PR #20 from native stack #88 not found — make sure it exists and is accessible"
    );
    let prs = vec![make_pr("feat/a", "main", 10)];
    assert_eq!(native_stack_title(&vec![10], &prs, 99, 88), "native stack #88");
}

#[test]
fn adopt_receipt_includes_native_prs_and_worktree_paths() {
    let mut base = candidate("feat/base", "main", 10);
    base.title = "Base".to_string();
    let mut child = candidate("feat/child", "feat/base", 11);
    child.title = "Child".to_string();
    child.is_draft = true;
    let candidates = vec![base, child];
    let paths = vec![
        "/repo/.worktrees/feat-base".to_string(),
        "/repo/.worktrees/feat-child".to_string(),
    ];

    let receipt = to_value(&adopt_receipt_value(2, 0, &candidates, Some(77), 2, &paths));

    assert_eq!(receipt["cmd"], "adopt");
    assert_eq!(receipt["adopted"], 2);
    assert_eq!(receipt["skipped"], 0);
    assert_eq!(receipt["native_stack_number"], 77);
    assert_eq!(receipt["branches"], serde_json::Value::from(vec!["feat/base", "feat/child"]));
    assert_eq!(receipt["pr_numbers"], serde_json::Value::from(vec![10u64, 11]));
    assert_eq!(receipt["worktrees_created"], 2);
    assert_eq!(
        receipt["worktree_paths"],
        serde_json::Value::from(vec!["/repo/.worktrees/feat-base", "/repo/.worktrees/feat-child"])
    );
}

#[test]
fn adopt_receipt_uses_null_native_stack_number_for_legacy_adoption() {
    let mut base = branch_candidate("feat/base", "main");
    base.title = "Base".to_string();
    let candidates = vec![base];

    let receipt = to_value(&adopt_receipt_value(0, 1, &candidates, None, 0, &Vec::new()));

    assert!(receipt["native_stack_number"].is_null());
    assert_eq!(receipt["pr_numbers"], serde_json::Value::from(vec![None::<u64>]));
    assert_eq!(receipt["worktrees_created"], 0);
    assert_eq!(receipt["worktree_paths"], serde_json::Value::Array(Vec::new()));
}

#[test]
fn build_adopt_graph_partial_chain_missing_middle() {
    let mut prs = NameMap::new();
    put(&mut prs, "feat/a", "main", 1);
    put(&mut prs, "feat/c", "feat/b", 3);

    let graph = build_adopt_graph("main", &prs);

    assert_eq!(graph.len(), 1);
    assert_eq!(graph[0].branch, "feat/a");
}

fn expand(
    prs: NameMap<PrInfo>,
    trunk: &str,
    remote: &NameMap<PrInfo>,
) -> (NameMap<PrInfo>, Vec<Vec<String>>) {
    let mut search = AncestorSearch::new(prs);
    let mut calls = Vec::new();
    loop {
        let refs = search.ask(trunk);
        if refs.is_empty() {
            break;
        }
        let mut found = NameMap::new();
        for r in &refs {
            if let Some(pr) = remote.get(r) {
                found.insert(r.clone(), pr.copy());
            }
        }
        calls.push(refs);
        search.receive(found);
    }
    (search.prs, calls)
}

#[test]
fn expand_ancestor_chains_fetches_missing_parents_until_trunk() {
    let mut prs = NameMap::new();
    put(&mut prs, "feat/c", "feat/b", 3);

    let mut remote = NameMap::new();
    put(&mut remote, "feat/a", "main", 1);
    put(&mut remote, "feat/b", "feat/a", 2);

    let (prs, calls) = expand(prs, "main", &remote);

    assert!(prs.contains_key("feat/a"));
    assert!(prs.contains_key("feat/b"));
    assert!(prs.contains_key("feat/c"));
    assert_eq!(calls.len(), 2, "expected one batch per stack level");
}

#[test]
fn expand_ancestor_chains_terminates_when_base_has_no_pr() {
    let mut prs = NameMap::new();
    put(&mut prs, "feat/c", "feat/b", 3);

    let (prs, calls) = expand(prs, "main", &NameMap::new());

    assert_eq!(calls.len(), 1);
    assert_eq!(prs.len(), 1);
    assert!(prs.contains_key("feat/c"));
}

#[test]
fn expand_ancestor_chains_does_nothing_when_all_bases_are_trunk() {
    let mut prs = NameMap::new();
    put(&mut prs, "feat/a", "main", 1);

    let (_, calls) = expand(prs, "main", &NameMap::new());

    assert_eq!(calls.len(), 0);
}

#[test]
fn orphan_local_prs_flags_branches_whose_base_is_neither_trunk_nor_local() {
    let mut prs = NameMap::new();
    put(&mut prs, "feat/a", "main", 1);
    put(&mut prs, "feat/b", "feat/a", 2);
    put(&mut prs, "feat/c", "feat/missing", 3);

    let orphans = orphan_local_prs(&prs, "main");
    assert_eq!(orphans, vec!["feat/c".to_string()]);
}

#[test]
fn orphan_local_prs_returns_sorted_for_stable_warning_order() {
    let mut prs = NameMap::new();
    put(&mut prs, "feat/z", "missing-x", 3);
    put(&mut prs, "feat/a", "missing-y", 1);
    put(&mut prs, "feat/m", "missing-z", 2);

    let orphans = orphan_local_prs(&prs, "main");
    assert_eq!(orphans, vec!["feat/a", "feat/m", "feat/z"]);
}

/// A repository as far as an adoption sees it: branches with the commit that each parted from
/// its parent at, worktrees, and paths that are taken.
struct Repo {
    branches: Vec<String>,
    merge_bases: Vec<(String, String, String)>,
    worktrees: Vec<(String, String)>,
    taken: Vec<String>,
    saved: bool,
    save_fails: bool,
}

impl Repo {
    fn new(branches: &[&str]) -> Repo {
        Repo {
            branches: branches.iter().map(|b| b.to_string()).collect(),
            merge_bases: Vec::new(),
            worktrees: vec![("main".to_string(), "/repo".to_string())],
            taken: Vec::new(),
            saved: false,
            save_fails: false,
        }
    }

    fn base(mut self, branch: &str, parent: &str, head: &str) -> Repo {
        self.merge_bases.push((branch.to_string(), parent.to_string(), head.to_string()));
        self
    }

    fn drive(&mut self, mut adoption: Adoption) -> Adoption {
        loop {
            let reply = match adoption.action() {
                AdoptAction::CheckBranch(b) => Reply::Flag(self.branches.contains(&b)),
                AdoptAction::CreateBranch { branch, .. } => {
                    self.branches.push(branch);
                    Reply::Done
                }
                AdoptAction::MergeBase { branch, parent } => self
                    .merge_bases
                    .iter()
                    .find(|(b, p, _)| *b == branch && *p == parent)
                    .map(|(_, _, h)| Reply::Text(h.clone()))
                    .unwrap_or_else(|| Reply::Failed("no merge base".to_string())),
                AdoptAction::DeleteBranch(b) => {
                    self.branches.retain(|x| *x != b);
                    Reply::Done
                }
                AdoptAction::ListWorktrees => Reply::Worktrees(self.worktrees.clone()),
                AdoptAction::WorktreePath(b) => {
                    Reply::Text(format!("/repo/.worktrees/{}", b.replace('/', "-")))
                }
                AdoptAction::AddWorktree { path, branch } => {
                    if self.taken.contains(&path) {
                        Reply::Failed(format!("'{path}' already exists"))
                    } else {
                        self.worktrees.push((branch, path));
                        Reply::Done
                    }
                }
                AdoptAction::RemoveWorktree(path) => {
                    self.worktrees.retain(|(_, p)| *p != path);
                    Reply::Done
                }
                AdoptAction::Save => {
                    if self.save_fails {
                        Reply::Failed("disk full".to_string())
                    } else {
                        self.saved = true;
                        Reply::Done
                    }
                }
                AdoptAction::Finished | AdoptAction::Failed => return adoption,
            };
            adoption = adoption.step(reply);
        }
    }
}

fn pr_pair() -> Vec<AdoptCandidate> {
    vec![candidate("feat/base", "main", 10), candidate("feat/child", "feat/base", 11)]
}

#[test]
fn adoption_parent_head_uses_merge_base_not_parent_tip() {
    let mut repo = Repo::new(&["main", "feat/base", "feat/child"]).base(
        "feat/child",
        "feat/base",
        "original-base",
    );
    let state = StackState::new("main".to_string());
    let adoption = Adoption::begin(
        &state,
        vec![branch_candidate("feat/child", "feat/base")],
        vec![None],
        true,
        true,
    );
    let done = repo.drive(adoption);
    assert_eq!(
        done.state().get_branch("feat/child").expect("parent head").parent_head,
        "original-base"
    );
}

#[test]
fn provision_worktrees_creates_reuses_and_skips_candidate_worktrees() {
    let fresh = || {
        Repo::new(&["main", "feat/base", "feat/child"])
            .base("feat/base", "main", "m")
            .base("feat/child", "feat/base", "m")
    };
    let state = StackState::new("main".to_string());
    let mut repo = fresh();
    let skipped =
        repo.drive(Adoption::begin(&state, pr_pair(), vec![None, None], true, true));
    assert!(skipped.created_paths().is_empty());
    assert!(skipped.paths().is_empty());
    assert_eq!(repo.worktrees.len(), 1);

    let mut repo = fresh();
    let first = repo.drive(Adoption::begin(&state, pr_pair(), vec![None, None], false, true));
    assert_eq!(first.created_paths().len(), 2);
    assert_eq!(first.paths().len(), 2);
    assert!(first.paths().iter().all(|path| path.contains("/.worktrees/")));
    assert!(first.paths().iter().all(|path| repo.worktrees.iter().any(|w| w.1 == *path)));

    let second =
        repo.drive(Adoption::begin(first.state(), pr_pair(), vec![None, None], false, true));
    assert_eq!(second.created_paths().len(), 0);
    assert_eq!(second.paths(), first.paths());
}

fn ref_facts(local_exists: bool, source: Option<&str>, contained: bool) -> RefFacts {
    RefFacts { local_exists, source_ref: source.map(|s| s.to_string()), contained }
}

#[test]
fn validate_existing_branch_pr_refs_allows_equal_and_local_ahead_but_rejects_stale_or_diverged() {
    validate_existing_branch_pr_refs(
        &vec![candidate("feat/equal", "main", 10), candidate("feat/ahead", "main", 11)],
        &vec![ref_facts(true, Some("pr-head"), true), ref_facts(true, Some("pr-head"), true)],
    )
    .expect("equal and local-ahead branches should pass");

    let stale = validate_existing_branch_pr_refs(
        &vec![candidate("feat/stale", "main", 12)],
        &vec![ref_facts(true, Some("pr-head"), false)],
    )
    .expect_err("stale local branch should fail");
    assert!(stale.message().contains("feat/stale"));
    assert!(stale.message().contains("PR #12"));

    let diverged = validate_existing_branch_pr_refs(
        &vec![candidate("feat/diverged", "main", 13)],
        &vec![ref_facts(true, Some("pr-head"), false)],
    )
    .expect_err("diverged local branch should fail");
    assert!(diverged.message().contains("feat/diverged"));
    assert!(diverged.message().contains("PR #13"));
}

#[test]
fn adoption_transaction_rolls_back_worktrees_branches_and_preserves_state_on_provision_failure() {
    let mut state = StackState::new("main".to_string());
    state.repo = Some("sentinel/repo".to_string());
    let mut repo = Repo::new(&["main"])
        .base("feat/base", "main", "m")
        .base("feat/child", "feat/base", "m");
    repo.taken.push("/repo/.worktrees/feat-child".to_string());
    let refs = vec![Some("m".to_string()), Some("m".to_string())];
    let failed = repo.drive(Adoption::begin(&state, pr_pair(), refs, false, true));

    let err = failed.error().as_ref().expect("second worktree add should fail");
    assert!(err.message().contains("already exists"));
    assert!(!repo.saved);
    assert_eq!(failed.state().repo.as_deref(), Some("sentinel/repo"));
    assert!(!failed.state().is_managed("feat/base"));
    assert!(!failed.state().is_managed("feat/child"));
    assert_eq!(repo.branches, vec!["main".to_string()]);
    assert_eq!(repo.worktrees.len(), 1);
}

#[test]
fn adoption_transaction_rolls_back_earlier_branch_when_later_branch_setup_fails() {
    let mut state = StackState::new("main".to_string());
    state.repo = Some("sentinel/repo".to_string());
    let mut repo = Repo::new(&["main"]).base("feat/base", "main", "m");
    let refs = vec![Some("m".to_string()), None];
    let failed = repo.drive(Adoption::begin(&state, pr_pair(), refs, true, true));
    let err = failed.error().as_ref().expect("missing second PR ref should abort");
    assert!(err.message().contains("missing fetched source ref for `feat/child`"));
    assert_eq!(failed.state().repo.as_deref(), Some("sentinel/repo"));
    assert_eq!(failed.state().branches.len(), 0);
    assert!(!repo.saved);
    assert_eq!(repo.branches, vec!["main".to_string()]);
}

#[test]
fn adoption_takes_everything_back_when_saving_fails() {
    let state = StackState::new("main".to_string());
    let mut repo = Repo::new(&["main"])
        .base("feat/base", "main", "m")
        .base("feat/child", "feat/base", "m");
    repo.save_fails = true;
    let refs = vec![Some("m".to_string()), Some("m".to_string())];
    let failed = repo.drive(Adoption::begin(&state, pr_pair(), refs, false, true));
    assert_eq!(failed.error().as_ref().unwrap().message(), "disk full");
    assert_eq!(repo.branches, vec!["main".to_string()]);
    assert_eq!(repo.worktrees.len(), 1);
    assert_eq!(failed.state().branches.len(), 0);
}

#[test]
fn managed_candidate_with_missing_local_ref_is_rehydrated_before_worktree_provisioning() {
    let mut state = StackState::new("main".to_string());
    state.add_branch("feat/remote", "main", "m", None, None);
    let mut repo = Repo::new(&["main"]);
    let done = repo.drive(Adoption::begin(
        &state,
        vec![branch_candidate("feat/remote", "main")],
        vec![Some("m".to_string())],
        false,
        true,
    ));
    assert!(done.error().is_none());
    assert_eq!((done.adopted(), done.skipped()), (0, 1));
    assert_eq!(done.created_paths().len(), 1);
    assert!(repo.branches.contains(&"feat/remote".to_string()));
    assert!(repo.saved);
    assert!(done.state().is_managed("feat/remote"));
}

#[test]
fn explicit_remote_only_branch_fetches_creates_worktree_and_saves_state() {
    let state = StackState::new("main".to_string());
    let candidates = build_explicit_chain_candidates(
        "main",
        &vec!["feat/remote".to_string()],
        &NameMap::new(),
    )
    .expect("explicit candidates");
    validate_managed_adopt_candidates(&state, &candidates, None).expect("metadata preflight");
    let source = branch_source(
        "origin",
        &candidates[0],
        false,
        Ok("origin/feat/remote".to_string()),
    )
    .expect("fetch remote ref");
    assert_eq!(source.as_deref(), Some("origin/feat/remote"));
    let mut repo = Repo::new(&["main"]).base("feat/remote", "main", "m");
    let done = repo.drive(Adoption::begin(&state, candidates, vec![source], false, true));

    assert_eq!((done.adopted(), done.skipped()), (1, 0));
    assert_eq!(done.created_paths().len(), 1);
    assert!(repo.branches.contains(&"feat/remote".to_string()));
    assert!(repo.saved);
    let meta = done.state().get_branch("feat/remote").expect("tracked branch");
    assert_eq!(meta.parent, "main");
    assert_eq!(meta.pr_number, None);
}

#[test]
fn explicit_local_prless_branch_supports_worktree_and_no_worktrees_modes() {
    let state = StackState::new("main".to_string());
    for (no_worktrees, created) in [(false, 1), (true, 0)] {
        let candidates = build_explicit_chain_candidates(
            "main",
            &vec!["feat/local".to_string()],
            &NameMap::new(),
        )
        .expect("explicit candidates");
        let source =
            branch_source("origin", &candidates[0], true, Err("no remote".to_string()))
                .expect("local-only accepted");
        assert_eq!(source, None);
        let mut repo = Repo::new(&["main", "feat/local"]).base("feat/local", "main", "m");
        let done =
            repo.drive(Adoption::begin(&state, candidates, vec![source], no_worktrees, true));
        assert_eq!(done.created_paths().len(), created);
        assert_eq!(repo.worktrees.len(), 1 + created);
        assert!(done.state().get_branch("feat/local").expect("branch").pr_number.is_none());
    }
}

#[test]
fn explicit_local_branch_adoption_runs_without_github_authentication() {
    let branches = vec!["feat/offline".to_string()];
    assert_eq!(run(None, &branches, false).expect("no gh auth needed"), AdoptSource::Named);
    let candidates =
        build_explicit_chain_candidates("main", &branches, &NameMap::new()).unwrap();
    let state = StackState::new("main".to_string());
    let mut repo = Repo::new(&["main", "feat/offline"]).base("feat/offline", "main", "m");
    let done = repo.drive(Adoption::begin(&state, candidates, vec![None], true, true));
    let meta = done.state().get_branch("feat/offline").expect("tracked branch");
    assert_eq!(meta.parent, "main");
    assert_eq!(meta.pr_number, None);
    assert!(done.created_paths().is_empty());
}

#[test]
fn other_adoptions_need_github_authentication() {
    assert!(run(Some(4), &Vec::new(), false).is_err());
    assert!(run(None, &Vec::new(), false).is_err());
    assert_eq!(run(Some(4), &Vec::new(), true).unwrap(), AdoptSource::Pull(4));
    assert_eq!(run(None, &Vec::new(), true).unwrap(), AdoptSource::Local);
}

#[test]
fn explicit_prless_ref_preflight_allows_equal_ahead_and_rejects_behind_diverged_missing() {
    validate_existing_branch_pr_refs(
        &vec![branch_candidate("feat/equal", "main"), branch_candidate("feat/ahead", "feat/equal")],
        &vec![
            ref_facts(true, Some("origin/feat/equal"), true),
            ref_facts(true, Some("origin/feat/ahead"), true),
        ],
    )
    .expect("equal and ahead accepted");

    let behind = validate_existing_branch_pr_refs(
        &vec![branch_candidate("feat/behind", "main")],
        &vec![ref_facts(true, Some("origin/feat/behind"), false)],
    )
    .expect_err("behind rejected");
    assert!(
        behind.message().contains("behind") || behind.message().contains("does not contain")
    );

    let diverged = validate_existing_branch_pr_refs(
        &vec![branch_candidate("feat/diverged", "main")],
        &vec![ref_facts(true, Some("origin/feat/diverged"), false)],
    )
    .expect_err("diverged rejected");
    assert!(diverged.message().contains("diverged"));

    let missing = branch_source(
        "origin",
        &branch_candidate("feat/missing", "main"),
        false,
        Err("couldn't find remote ref".to_string()),
    )
    .expect_err("missing rejected");
    assert!(missing.message().contains("feat/missing"));
}

#[test]
fn explicit_unrelated_history_aborts_and_rolls_back_state_refs_and_worktrees() {
    let state = StackState::new("main".to_string());
    let mut repo = Repo::new(&["main"]);
    let failed = repo.drive(Adoption::begin(
        &state,
        vec![branch_candidate("feat/unrelated", "main")],
        vec![Some("origin/feat/unrelated".to_string())],
        false,
        true,
    ));
    let err = failed.error().as_ref().expect("unrelated merge-base should abort");
    assert!(err.message().contains("parent") || err.message().contains("merge"));
    assert!(!repo.saved);
    assert_eq!(failed.state().branches.len(), 0);
    assert!(!repo.branches.contains(&"feat/unrelated".to_string()));
    assert_eq!(repo.worktrees.len(), 1);
}

#[test]
fn an_unresolved_base_only_skips_where_adoption_may_go_on() {
    let state = StackState::new("main".to_string());
    let mut repo = Repo::new(&["main"]).base("feat/base", "main", "m");
    let refs = vec![Some("m".to_string()), Some("m".to_string())];
    let done = repo.drive(Adoption::begin(&state, pr_pair(), refs, true, false));
    assert!(done.error().is_none());
    assert_eq!((done.adopted(), done.skipped()), (1, 1));
    assert!(!repo.branches.contains(&"feat/child".to_string()));
    assert_eq!(done.state().get_branch("feat/base").unwrap().pr_number, Some(10));
}

#[test]
fn adoption_sources_and_lists() {
    let mut prs = NameMap::new();
    put(&mut prs, "feat/a", "main", 1);
    let (k, mut v) = make_pr("feat/m", "main", 2);
    v.merged = true;
    assert!(!is_active_pr(&v));
    prs.insert(k, v);
    assert!(all_have_open_pr(&vec!["feat/a".to_string()], &prs));
    assert!(!all_have_open_pr(&vec!["feat/a".to_string(), "feat/x".to_string()], &prs));
    retain_active(&mut prs);
    assert_eq!(prs.keys(), vec!["feat/a".to_string()]);
    assert_eq!(format_pr_number(Some(3)), "#3");
    assert_eq!(format_pr_number(None), "none");
    assert_eq!(names(&named_candidates("main", &prs).unwrap()), vec!["feat/a"]);
    assert!(named_candidates("main", &NameMap::new()).is_err());
    assert!(pull_candidates("main", 4, "t", Vec::new()).is_err());
    assert_eq!(
        pull_candidates("main", 4, "t", vec![candidate("feat/a", "main", 4)]).unwrap().len(),
        1
    );
}
