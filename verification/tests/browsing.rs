use ez_stack::cmd::checkout::{
    branch_worktree_map, find_by_pr, selection, stale_switch_target_warning, worktree_edit_hint,
    Switch,
};
use ez_stack::cmd::list::{
    branch_status_label, combined_branch_order, format_age, json_entries, row, worktree_lock_json,
    worktree_lock_label, BranchData, LeaseInfo, LockInfo, StatusCounts,
};
use ez_stack::cmd::log::{
    inspection_value, json_entry, line_parts, native_stack_log_suffix, own_worktree_map, tree,
    LineFacts,
};
use ez_stack::cmd::move_branch::{
    self, detect_native_stack, missing_onto_message, move_receipt, plan_pr_base, record_move,
    PrBaseOutcome, PrBasePlan,
};
use ez_stack::cmd::native_stack::{
    chain_lookups, error_receipt_value, fork_not_applicable_all_inspections, inspect_all_with_lookup,
    inspect_branch, inspect_branch_with_lookup, inspection_from_lookup, linkable_chains,
    native_stack_plan, receipt_value, report_outcome, summary, GitHubNativeStackInspection, Inspect,
    LocalNativeStackInspection, NativeStackInspection,
};
use ez_stack::cmd::navigate::{
    bottom, bottom_target, child_picker_labels, down, down_target, pick_upstream_child,
    resolve_explicit_child, top, top_target, up, Target,
};
use ez_stack::cmd::{branch, checkout, diff, parent};
use ez_stack::git::{GitView, WorktreeInfo};
use ez_stack::github::{NativeStackInfo, NativeStackLookup, NativeStackOutcome, PrInfo};
use ez_stack::json::{receipt_line, to_value};
use ez_stack::name_map::NameMap;
use ez_stack::stack::StackState;
use std::collections::BTreeSet;

fn branch_with_pr(state: &mut StackState, name: &str, parent: &str, pr_number: Option<u64>) {
    state.add_branch(name, parent, "parent-head", None, None);
    state.set_pr_number(name, pr_number).expect("branch");
}

#[test]
fn receipt_records_context_and_created_stack_number() {
    let branches = vec!["feat/a".to_string(), "feat/b".to_string()];
    let value = to_value(&receipt_value(
        "sync",
        &branches,
        &vec![101, 102],
        &NativeStackOutcome::Created { number: 88 },
    ));

    assert_eq!(value["cmd"], "sync");
    assert_eq!(value["branches"], serde_json::Value::from(vec!["feat/a", "feat/b"]));
    assert_eq!(value["pull_requests"], serde_json::Value::from(vec![101, 102]));
    assert_eq!(value["native_stack_action"], "created");
    assert_eq!(value["native_stack_number"], 88);
}

#[test]
fn receipt_omits_empty_optional_context() {
    let value = to_value(&receipt_value(
        "submit",
        &Vec::new(),
        &Vec::new(),
        &NativeStackOutcome::Unavailable,
    ));

    assert_eq!(value["native_stack_action"], "unavailable");
    assert!(value.get("branches").is_none());
    assert!(value.get("pull_requests").is_none());
    assert!(value.get("native_stack_number").is_none());
}

#[test]
fn error_receipt_preserves_desired_chain() {
    let value = to_value(&error_receipt_value(
        "sync",
        &vec!["feat/a".to_string(), "feat/b".to_string()],
        &vec![101, 102],
        "diverged",
    ));

    assert_eq!(value["native_stack_action"], "error");
    assert_eq!(value["native_stack_error"], "diverged");
    assert_eq!(value["pull_requests"], serde_json::Value::from(vec![101, 102]));
}

#[test]
fn native_stack_plan_keeps_independent_linear_components_separate() {
    let mut state = StackState::new("main".to_string());
    branch_with_pr(&mut state, "feat/a", "main", Some(101));
    branch_with_pr(&mut state, "feat/b", "feat/a", Some(102));
    branch_with_pr(&mut state, "feat/x", "main", Some(201));
    branch_with_pr(&mut state, "feat/y", "feat/x", Some(202));

    let plan = native_stack_plan(&state);

    assert_eq!(
        plan.chains.iter().map(|chain| chain.pr_numbers.clone()).collect::<Vec<_>>(),
        vec![vec![101, 102], vec![201, 202]]
    );
    assert!(plan.skipped.is_empty());
}

#[test]
fn native_stack_plan_retains_single_pr_segments_for_inspection() {
    let mut state = StackState::new("main".to_string());
    branch_with_pr(&mut state, "feat/a", "main", Some(101));
    branch_with_pr(&mut state, "feat/local-only", "feat/a", None);
    branch_with_pr(&mut state, "feat/c", "feat/local-only", Some(103));
    branch_with_pr(&mut state, "feat/d", "feat/c", Some(104));

    let plan = native_stack_plan(&state);

    assert_eq!(plan.chains.len(), 2);
    assert_eq!(plan.chains[0].branches, vec!["feat/a"]);
    assert_eq!(plan.chains[0].pr_numbers, vec![101]);
    assert_eq!(plan.chains[1].branches, vec!["feat/c", "feat/d"]);
    assert_eq!(plan.chains[1].pr_numbers, vec![103, 104]);
    assert_eq!(
        linkable_chains(&plan)
            .into_iter()
            .map(|chain| chain.pr_numbers.clone())
            .collect::<Vec<_>>(),
        vec![vec![103, 104]]
    );
    assert!(plan.skipped.is_empty());
}

#[test]
fn native_stack_plan_skips_branching_component_instead_of_flattening_it() {
    let mut state = StackState::new("main".to_string());
    branch_with_pr(&mut state, "feat/a", "main", Some(101));
    branch_with_pr(&mut state, "feat/b", "feat/a", Some(102));
    branch_with_pr(&mut state, "feat/c", "feat/a", Some(103));

    let plan = native_stack_plan(&state);

    assert!(plan.chains.is_empty());
    assert_eq!(plan.skipped.len(), 1);
    assert_eq!(plan.skipped[0].root, "feat/a");
    assert_eq!(plan.skipped[0].reason, "branching_component");
    assert_eq!(plan.skipped[0].branches, vec!["feat/a", "feat/b", "feat/c"]);
    assert_eq!(plan.skipped[0].pr_numbers, vec![101, 102, 103]);
}

#[test]
fn native_stack_plan_reports_orphans_and_cycles_as_unrepresentable() {
    let mut state = StackState::new("main".to_string());
    branch_with_pr(&mut state, "feat/orphan", "missing-parent", Some(301));
    branch_with_pr(&mut state, "feat/cycle-a", "feat/cycle-b", Some(401));
    branch_with_pr(&mut state, "feat/cycle-b", "feat/cycle-a", Some(402));

    let plan = native_stack_plan(&state);

    assert!(plan.chains.is_empty());
    assert_eq!(plan.skipped.len(), 2);
    assert_eq!(plan.skipped[0].reason, "invalid_parent_graph");
    assert_eq!(plan.skipped[1].reason, "invalid_parent_graph");
    assert_eq!(
        plan.skipped
            .iter()
            .flat_map(|component| component.branches.clone())
            .collect::<BTreeSet<_>>(),
        BTreeSet::from([
            "feat/cycle-a".to_string(),
            "feat/cycle-b".to_string(),
            "feat/orphan".to_string(),
        ])
    );
}

fn inspect(
    state: &StackState,
    branch: &str,
    lookup: Result<NativeStackLookup, String>,
) -> NativeStackInspection {
    match inspect_branch_with_lookup(state, branch) {
        Inspect::Settled(i) => i,
        Inspect::Lookup { chain, pr_number } => inspection_from_lookup(&chain, pr_number, &lookup),
    }
}

fn settled(state: &StackState, branch: &str) -> NativeStackInspection {
    match inspect_branch_with_lookup(state, branch) {
        Inspect::Settled(i) => i,
        Inspect::Lookup { .. } => unreachable!(),
    }
}

fn found(base: Option<&str>, open: Option<bool>, prs: Vec<u64>) -> NativeStackLookup {
    NativeStackLookup::Found(NativeStackInfo {
        number: 88,
        base_ref: base.map(|b| b.to_string()),
        open,
        pull_requests: prs,
    })
}

#[test]
fn inspect_branch_reports_all_terminal_states() {
    let mut state = StackState::new("main".to_string());
    branch_with_pr(&mut state, "feat/a", "main", Some(101));
    branch_with_pr(&mut state, "feat/b", "feat/a", Some(102));

    let hit = inspect(&state, "feat/b", Ok(found(Some("main"), Some(true), vec![101, 102])));
    assert_eq!(hit.state, "in_sync");
    assert_eq!(hit.github.as_ref().expect("github").position, Some(2));

    let diverged = inspect(&state, "feat/b", Ok(found(None, None, vec![101, 999])));
    assert_eq!(diverged.state, "diverged");
    assert_eq!(diverged.github.as_ref().expect("github").position, None);

    let not_linked = inspect(&state, "feat/b", Ok(NativeStackLookup::NotLinked));
    assert_eq!(not_linked.state, "not_linked");

    let unavailable = inspect(&state, "feat/b", Ok(NativeStackLookup::Unavailable));
    assert_eq!(unavailable.state, "unavailable");

    let error = inspect(&state, "feat/b", Err("auth failed".to_string()));
    assert_eq!(error.state, "error");
    assert_eq!(error.error.as_deref(), Some("auth failed"));

    assert_eq!(settled(&state, "main").state, "not_applicable");
    branch_with_pr(&mut state, "feat/local", "feat/b", None);
    assert_eq!(settled(&state, "feat/local").state, "not_applicable");
}

#[test]
fn inspect_branch_reports_unrepresentable_for_skipped_component() {
    let mut state = StackState::new("main".to_string());
    branch_with_pr(&mut state, "feat/a", "main", Some(101));
    branch_with_pr(&mut state, "feat/b", "feat/a", Some(102));
    branch_with_pr(&mut state, "feat/c", "feat/a", Some(103));

    let inspection = settled(&state, "feat/b");

    assert_eq!(inspection.state, "unrepresentable");
    assert_eq!(inspection.reason.as_deref(), Some("branching_component"));
    assert_eq!(inspection.local.pull_requests, vec![101, 102, 103]);
}

#[test]
fn inspect_all_queries_once_per_segment_and_sets_one_based_positions() {
    let mut state = StackState::new("main".to_string());
    branch_with_pr(&mut state, "feat/a", "main", Some(101));
    branch_with_pr(&mut state, "feat/b", "feat/a", Some(102));

    let plan = native_stack_plan(&state);
    let calls = chain_lookups(&plan);
    assert_eq!(calls, vec![102]);
    let lookups = vec![Ok(found(Some("main"), Some(true), vec![101, 102]))];
    let inspections = inspect_all_with_lookup(&state, &plan, &lookups);
    let position = |name: &str| {
        inspections
            .iter()
            .find(|(b, _)| b == name)
            .expect("branch")
            .1
            .github
            .as_ref()
            .expect("github")
            .position
    };
    assert_eq!(position("feat/a"), Some(1));
    assert_eq!(position("feat/b"), Some(2));
}

#[test]
fn inspecting_all_and_inspecting_one_find_the_same() {
    let mut state = StackState::new("main".to_string());
    branch_with_pr(&mut state, "feat/a", "main", Some(101));
    branch_with_pr(&mut state, "feat/b", "feat/a", Some(102));
    branch_with_pr(&mut state, "fork/a", "main", Some(201));
    branch_with_pr(&mut state, "fork/b", "fork/a", Some(202));
    branch_with_pr(&mut state, "fork/c", "fork/a", Some(203));
    branch_with_pr(&mut state, "lost", "gone", Some(301));
    let answer = || Ok(found(Some("main"), None, vec![101, 102, 7]));
    let plan = native_stack_plan(&state);
    let lookups = plan.chains.iter().map(|_| answer()).collect();
    let all = inspect_all_with_lookup(&state, &plan, &lookups);
    assert_eq!(all.len(), 6);
    for (branch, finding) in &all {
        let one = inspect(&state, branch, answer());
        assert_eq!(
            to_value(&inspection_value(&one)),
            to_value(&inspection_value(finding)),
            "{branch}"
        );
    }
}

#[test]
fn inspection_serializes_exact_shape_and_summary_is_compact() {
    let inspection = NativeStackInspection {
        provider: "github",
        preview: true,
        state: "in_sync".to_string(),
        local: LocalNativeStackInspection {
            branches: vec!["feat/a".to_string(), "feat/b".to_string()],
            pull_requests: vec![101, 102],
        },
        github: Some(GitHubNativeStackInspection {
            number: 88,
            base_ref: Some("main".to_string()),
            open: Some(true),
            position: Some(1),
            size: 2,
            pull_requests: vec![101, 102],
        }),
        reason: None,
        error: None,
    };

    assert_eq!(
        receipt_line(&inspection_value(&inspection)),
        "{\"github\":{\"base_ref\":\"main\",\"number\":88,\"open\":true,\"position\":1,\"pull_requests\":[101,102],\"size\":2},\"local\":{\"branches\":[\"feat/a\",\"feat/b\"],\"pull_requests\":[101,102]},\"preview\":true,\"provider\":\"github\",\"state\":\"in_sync\"}"
    );
    assert_eq!(summary(&inspection), "GitHub native stack is in sync");
}

#[test]
fn a_fork_workflow_has_no_native_stacks() {
    let mut state = StackState::new("main".to_string());
    branch_with_pr(&mut state, "feat/a", "main", Some(101));
    state.fork_repo = Some("me/p".to_string());
    assert!(matches!(
        inspect_branch(&state, "feat/a"),
        Inspect::Settled(i) if i.state == "not_applicable"
    ));
    let all = fork_not_applicable_all_inspections(&state);
    assert!(all.iter().all(|(_, i)| i.state == "not_applicable"));
}

#[test]
fn outcomes_are_told_where_there_is_something_to_tell() {
    assert_eq!(report_outcome(&NativeStackOutcome::NotNeeded), None);
    assert!(report_outcome(&NativeStackOutcome::Created { number: 5 }).unwrap().contains("#5"));
}

fn sample_state() -> StackState {
    let mut state = StackState::new("main".to_string());
    state.add_branch("feat/base", "main", "aaa", None, None);
    state.add_branch("feat/top", "feat/base", "bbb", None, None);
    state
}

#[test]
fn pr_base_receipt_distinguishes_every_remote_outcome() {
    assert_eq!(to_value(&PrBaseOutcome::NoPr.receipt_value()), serde_json::Value::Null);
    assert_eq!(to_value(&PrBaseOutcome::Updated.receipt_value()), "updated");
    assert_eq!(
        to_value(&PrBaseOutcome::DeferredToNativeStack.receipt_value()),
        "deferred_to_native_stack"
    );

    let failed = to_value(
        &PrBaseOutcome::Failed(
            "Cannot change the base branch because the pull request is part of a stack".to_string(),
        )
        .receipt_value(),
    );
    assert_eq!(failed["status"], "failed");
    assert!(
        failed["detail"].as_str().expect("detail").contains("part of a stack"),
        "the reason has to survive into the receipt: {failed}"
    );
}

#[test]
fn detect_native_stack_is_none_without_a_pr_or_in_a_fork_workflow() {
    let state = sample_state();
    let hit = || Ok(found(Some("main"), Some(true), vec![42]));
    assert!(detect_native_stack(&state, None, hit()).is_none());
    assert!(detect_native_stack(&state, Some(42), hit()).is_some());

    let mut fork_state = sample_state();
    fork_state.upstream_remote = Some("upstream".to_string());
    assert!(fork_state.is_fork_workflow());
    assert!(detect_native_stack(&fork_state, Some(42), hit()).is_none());
}

#[test]
fn missing_onto_message_lists_trunk_and_managed_branches() {
    let message = missing_onto_message(&sample_state());

    assert!(message.contains("Missing target branch for `ez move --onto`"));
    assert!(message.contains("Available branches:"));
    assert!(message.contains("  - main (trunk)"));
    assert!(message.contains("  - feat/base"));
    assert!(message.contains("  - feat/top"));
}

#[test]
fn a_move_never_makes_a_cycle() {
    let mut state = sample_state();
    state.add_branch("feat/other", "main", "ooo", None, None);
    assert!(move_branch::run(&state, "feat/base", Some("feat/top".to_string())).is_err());
    assert!(move_branch::run(&state, "feat/base", Some("feat/base".to_string())).is_err());
    assert!(move_branch::run(&state, "main", Some("feat/top".to_string())).is_err());
    assert!(move_branch::run(&state, "feat/top", Some("  ".to_string())).is_err());
    assert!(move_branch::run(&state, "feat/top", None).is_err());
    assert!(move_branch::run(&state, "feat/top", Some("nowhere".to_string())).is_err());
    assert_eq!(
        move_branch::run(&state, "feat/top", Some("feat/other".to_string())).unwrap(),
        "feat/other"
    );
    record_move(&mut state, "feat/top", "feat/other", "otip").unwrap();
    let meta = state.get_branch("feat/top").unwrap();
    assert_eq!((meta.parent.as_str(), meta.parent_head.as_str()), ("feat/other", "otip"));
    assert_eq!(state.path_to_trunk("feat/top").len(), 3);
    assert_eq!(plan_pr_base(None, true), PrBasePlan::NoPr);
    assert_eq!(plan_pr_base(Some(4), true), PrBasePlan::Defer);
    assert_eq!(plan_pr_base(Some(4), false), PrBasePlan::Update(4));
    let receipt =
        to_value(&move_receipt("feat/top", "feat/base", "feat/other", 0, &PrBaseOutcome::NoPr, &None));
    assert_eq!(receipt["cmd"], "move");
    assert_eq!(receipt["branch"], "feat/top");
}

fn state_with_pr() -> StackState {
    let mut state = StackState::new("main".to_string());
    state.add_branch("feat/x", "main", "abc", None, None);
    state.set_pr_number("feat/x", Some(99)).unwrap();
    state
}

#[test]
fn test_find_branch_by_pr_number() {
    let state = state_with_pr();
    let found = find_by_pr(&state, &state.branches.keys(), 99);
    assert_eq!(found, Some("feat/x".to_string()));
}

#[test]
fn test_arg_parses_as_pr_number() {
    let state = state_with_pr();
    assert!(matches!(checkout::run(&state, "main", "99"), Ok(Switch::To(b)) if b == "feat/x"));
    assert!(matches!(checkout::run(&state, "main", "feat/x"), Ok(Switch::To(b)) if b == "feat/x"));
    assert!(checkout::run(&state, "main", "0")
        .unwrap_err()
        .message()
        .starts_with("No branch found with PR #0"));
    assert!(matches!(checkout::run(&state, "feat/x", "99"), Ok(Switch::Already(_))));
    assert!(checkout::run(&state, "main", "nowhere").is_err());
    assert_eq!(selection(&state), vec!["main".to_string(), "feat/x".to_string()]);
}

fn git_with(ancestors: &[(&str, &str)]) -> GitView {
    GitView {
        local: vec!["main".to_string(), "feat/test".to_string()],
        tips: Vec::new(),
        bases: Vec::new(),
        ancestors: ancestors.iter().map(|(a, b)| (a.to_string(), b.to_string())).collect(),
    }
}

#[test]
fn stale_switch_target_warning_reports_stale_branch() {
    let mut state = StackState::new("main".to_string());
    state.add_branch("feat/test", "main", "m0", None, None);

    let warning = stale_switch_target_warning(&state, &git_with(&[]), "feat/test")
        .expect("stale branch should warn");
    assert!(warning.contains("not restacked on `main`"));
}

#[test]
fn stale_switch_target_warning_skips_fresh_branch() {
    let mut state = StackState::new("main".to_string());
    state.add_branch("feat/test", "main", "m0", None, None);

    let git = git_with(&[("main", "feat/test")]);
    assert!(stale_switch_target_warning(&state, &git, "feat/test").is_none());
    assert!(stale_switch_target_warning(&state, &git_with(&[]), "main").is_none());
}

#[test]
fn checkout_worktree_edit_hint_mentions_worktree_path_and_main_checkout() {
    let hint = worktree_edit_hint("/repo/.worktrees/feat-x");
    assert!(hint.contains("/repo/.worktrees/feat-x"));
    assert!(hint.contains("main repo checkout"));
    assert_eq!(worktree_edit_hint("/repo"), "Edit files under `/repo`.");
}

fn worktree(path: &str, branch: Option<&str>) -> WorktreeInfo {
    WorktreeInfo {
        path: path.to_string(),
        branch: branch.map(|b| b.to_string()),
        locked_reason: None,
    }
}

#[test]
fn branch_worktree_map_includes_main_and_linked_worktrees() {
    let wt_map = branch_worktree_map(&vec![
        worktree("/repo", Some("main")),
        worktree("/repo/.worktrees/feat-x", Some("feat/x")),
        worktree("/repo/detached", None),
    ]);

    assert_eq!(wt_map.get("main"), Some(&"/repo".to_string()));
    assert_eq!(wt_map.get("feat/x"), Some(&"/repo/.worktrees/feat-x".to_string()));
    assert!(!wt_map.contains_key("detached"));
}

fn line_state() -> StackState {
    let mut state = StackState::new("main".to_string());
    state.add_branch("feat/a", "main", "aaa", None, None);
    state.add_branch("feat/b", "feat/a", "bbb", None, None);
    state.add_branch("feat/c", "feat/b", "ccc", None, None);
    state
}

fn fork_state() -> StackState {
    let mut state = StackState::new("main".to_string());
    state.add_branch("line-a", "main", "aaa", None, None);
    state.add_branch("line-b", "main", "bbb", None, None);
    state.set_pr_number("line-a", Some(10)).unwrap();
    state.set_pr_number("line-b", Some(20)).unwrap();
    state
}

fn only(t: Target) -> String {
    match t {
        Target::Branch(b) => b,
        Target::Pick(_) => panic!("one branch was expected"),
    }
}

#[test]
fn pick_upstream_errors_without_children() {
    let state = line_state();
    let err = pick_upstream_child(&state, "feat/c", &Vec::new(), None, false)
        .expect_err("expected no children");
    assert!(err.message().contains("already at the top"));
}

#[test]
fn pick_upstream_single_child_without_explicit() {
    let state = line_state();
    let children = state.children_of("feat/b");
    let got = pick_upstream_child(&state, "feat/b", &children, None, false).expect("one child");
    assert_eq!(only(got), "feat/c");
}

#[test]
fn several_children_need_a_choice() {
    let state = fork_state();
    assert!(up(&state, "main", None, false).is_err());
    assert!(matches!(
        up(&state, "main", None, true).unwrap(),
        Target::Pick(c) if c == vec!["line-a".to_string(), "line-b".to_string()]
    ));
    assert_eq!(only(up(&state, "main", Some("line-b"), false).unwrap()), "line-b");
    assert_eq!(down(&state, "line-b", None).unwrap(), "main");
    assert_eq!(down(&state, "line-b", Some("main")).unwrap(), "main");
    assert!(down(&state, "line-b", Some("line-a")).is_err());
}

#[test]
fn resolve_explicit_child_by_name() {
    let state = fork_state();
    let children = state.children_of("main");
    let got = resolve_explicit_child(&state, "main", "line-b", &children).expect("resolve");
    assert_eq!(got, "line-b");
}

#[test]
fn child_picker_labels_include_pr_badges_and_linked_worktree_suffixes() {
    let state = fork_state();
    let children = state.children_of("main");
    let mut wt_map = NameMap::new();
    wt_map.insert("line-a".to_string(), "/repo/.worktrees/line-a".to_string());
    wt_map.insert("line-b".to_string(), "/repo/line-b".to_string());

    let labels = child_picker_labels(&state, &children, &wt_map);

    assert_eq!(labels.len(), 2);
    assert_eq!(labels[0].branch, "line-a");
    assert_eq!(labels[0].pr_number, Some(10));
    assert_eq!(labels[0].worktree.as_deref(), Some("[wt: line-a]"));
    assert_eq!(labels[1].branch, "line-b");
    assert_eq!(labels[1].pr_number, Some(20));
    assert_eq!(labels[1].worktree, None);
}

#[test]
fn child_picker_labels_omit_pr_badges_for_prless_children() {
    let state = line_state();
    let children = state.children_of("feat/a");

    let labels = child_picker_labels(&state, &children, &NameMap::new());

    assert_eq!(labels.len(), 1);
    assert_eq!(labels[0].branch, "feat/b");
    assert_eq!(labels[0].pr_number, None);
}

#[test]
fn resolve_explicit_child_by_pr() {
    let state = fork_state();
    let children = state.children_of("main");
    let got = resolve_explicit_child(&state, "main", "20", &children).expect("resolve pr");
    assert_eq!(got, "line-b");
}

#[test]
fn resolve_explicit_child_rejects_wrong_name() {
    let state = fork_state();
    let children = state.children_of("main");
    assert!(resolve_explicit_child(&state, "main", "nope", &children).is_err());
}

#[test]
fn down_target_validates_trunk_and_unmanaged() {
    let state = line_state();
    assert_eq!(down_target(&state, "feat/b").expect("parent"), "feat/a");
    assert!(down_target(&state, "main").is_err());
    assert!(down_target(&state, "scratch").is_err());
}

#[test]
fn top_and_bottom_targets_follow_stack_shape() {
    let state = line_state();
    assert_eq!(top_target(&state, "feat/a").expect("top"), "feat/c");
    assert_eq!(only(bottom_target(&state, "feat/c", false).expect("bottom")), "feat/a");
    assert_eq!(
        only(bottom_target(&state, "main", false).expect("bottom from trunk")),
        "feat/a"
    );
    assert!(top_target(&state, "feat/c").is_err());
    assert!(bottom_target(&state, "feat/a", false).is_err());
    assert_eq!(top(&state, "main").unwrap(), "feat/c");
    assert_eq!(only(bottom(&state, "feat/b", true).unwrap()), "feat/a");
}

#[test]
fn bottom_from_trunk_errors_when_no_children() {
    let state = StackState::new("main".to_string());
    assert!(bottom_target(&state, "main", false).is_err());
}

#[test]
fn down_undoes_up() {
    let state = line_state();
    for b in ["main", "feat/a", "feat/b"] {
        let child = only(up(&state, b, None, false).unwrap());
        assert_eq!(down(&state, &child, None).unwrap(), b);
    }
}

#[test]
fn combined_branch_order_appends_unmanaged_locals_once() {
    let managed = vec!["feat/a".to_string(), "feat/b".to_string()];
    let local = vec![
        "main".to_string(),
        "feat/b".to_string(),
        "scratch".to_string(),
        "hotfix".to_string(),
    ];

    assert_eq!(
        combined_branch_order("main", &managed, &local),
        vec![
            "feat/a".to_string(),
            "feat/b".to_string(),
            "scratch".to_string(),
            "hotfix".to_string()
        ]
    );
}

fn counts(staged: usize, modified: usize, untracked: usize) -> StatusCounts {
    StatusCounts { staged, modified, untracked }
}

#[test]
fn branch_status_label_handles_managed_and_unmanaged_variants() {
    assert_eq!(branch_status_label(true, false, counts(0, 0, 0)), "no worktree");
    assert_eq!(branch_status_label(false, false, counts(0, 0, 0)), "not tracked");
    assert_eq!(branch_status_label(true, true, counts(0, 0, 0)), "clean");
    assert_eq!(branch_status_label(false, true, counts(1, 2, 3)), "1S 2M 3U; not tracked");
}

#[test]
fn format_age_handles_boundaries() {
    assert_eq!(format_age(None), "-");
    assert_eq!(format_age(Some(59)), "59s");
    assert_eq!(format_age(Some(60)), "1m");
    assert_eq!(format_age(Some(3_599)), "59m");
    assert_eq!(format_age(Some(3_600)), "1h");
    assert_eq!(format_age(Some(86_400)), "1d");
}

#[test]
fn json_entries_include_unmanaged_branch_without_worktree_fields() {
    let state = StackState::new("main".to_string());
    let entries: Vec<serde_json::Value> = json_entries(
        &state,
        "scratch",
        &vec![BranchData {
            name: "scratch".to_string(),
            is_managed: false,
            pr_number: None,
            parent: None,
            wt_path: None,
            wt_lock: None,
            ci: String::new(),
            age: None,
            wt_status: counts(0, 0, 0),
            dev_port: 0,
        }],
    )
    .iter()
    .map(to_value)
    .collect();

    assert_eq!(entries.len(), 2);
    assert_eq!(entries[0]["branch"], "main");
    assert_eq!(entries[1]["branch"], "scratch");
    assert_eq!(entries[1]["is_managed"], false);
    assert!(entries[1]["ci_status"].is_null());
    assert!(entries[1]["dev_port"].is_null());
    assert!(entries[1]["worktree_path"].is_null());
    assert!(entries[1]["working_tree"].is_null());
    assert!(entries[1]["worktree_lock"].is_null());
}

#[test]
fn locks_and_rows_of_the_listing() {
    let lease = |branch: &str, stale: bool| LockInfo {
        reason: "ez-lease".to_string(),
        lease: Some(LeaseInfo {
            owner: "codex-1".to_string(),
            branch: branch.to_string(),
            created_at: 1,
            expires_at: 2,
            stale,
        }),
    };
    assert_eq!(worktree_lock_label("b", &lease("b", false)), "claimed: codex-1");
    assert_eq!(worktree_lock_label("b", &lease("b", true)), "stale lease: codex-1");
    assert_eq!(worktree_lock_label("b", &lease("other", true)), "locked: ez-lease");
    let bare = LockInfo { reason: String::new(), lease: None };
    assert_eq!(worktree_lock_label("b", &bare), "locked");
    assert_eq!(to_value(&worktree_lock_json("b", &bare))["reason"], "<no reason>");
    assert_eq!(to_value(&worktree_lock_json("b", &lease("b", true)))["stale"], true);
    assert_eq!(
        row("", "BRANCH", "PR", "CI", "AGE", "PORT", "STATUS"),
        format!(
            "{:4} {:30} {:8} {:6} {:6} {:7} {}",
            "", "BRANCH", "PR", "CI", "AGE", "PORT", "STATUS"
        )
    );
}

fn make_state() -> StackState {
    let mut state = StackState::new("main".to_string());
    state.add_branch("feat/a", "main", "abc", None, None);
    state.set_pr_number("feat/a", Some(1)).unwrap();
    state.add_branch("feat/b", "feat/a", "def", None, None);
    state
}

#[test]
fn test_log_topo_order() {
    let state = make_state();
    let order = state.topo_order();
    let idx_a = order.iter().position(|s| s == "feat/a").unwrap();
    let idx_b = order.iter().position(|s| s == "feat/b").unwrap();
    assert!(idx_a < idx_b, "feat/a (parent) must come before feat/b (child)");
}

#[test]
fn test_log_children_of() {
    let state = make_state();
    assert_eq!(state.children_of("feat/a"), vec!["feat/b"]);
    assert!(state.children_of("feat/b").is_empty());
}

#[test]
fn test_worktree_map_only_includes_dot_worktrees() {
    let map = own_worktree_map(&vec![
        worktree("/repo", Some("main")),
        worktree("/repo/.worktrees/feat-x", Some("feat/x")),
        worktree("/somewhere/else", Some("stray")),
        worktree("/repo/.worktrees/detached", None),
    ]);

    assert!(!map.contains_key("main"), "main worktree must not appear in map");
    assert!(!map.contains_key("stray"), "worktrees outside .worktrees/ must not appear");
    assert_eq!(map.get("feat/x").map(String::as_str), Some("/repo/.worktrees/feat-x"));
    assert_eq!(map.len(), 1, "only the .worktrees/ branch should be in map");
}

#[test]
fn native_stack_log_suffix_is_compact() {
    let suffix = native_stack_log_suffix("in sync with GitHub stack #88");

    assert!(suffix.contains("[native: in sync with GitHub stack #88]"));
    assert!(suffix.starts_with(' '));
}

fn real_stack(pr_number: Option<u64>) -> StackState {
    let mut state = StackState::new("main".to_string());
    state.repo = Some("owner/repo".to_string());
    state.add_branch("feat/a", "main", "m0", None, None);
    state.set_pr_number("feat/a", pr_number).expect("a meta");
    state.add_branch("feat/b", "feat/a", "a0", None, None);
    state
}

fn no_facts() -> LineFacts {
    LineFacts {
        worktree: None,
        pr: None,
        ci: String::new(),
        commits: 1,
        native_summary: None,
    }
}

#[test]
fn renders_real_nested_stack_in_human_and_json_modes() {
    let state = real_stack(None);
    let rows = tree(&state);
    assert_eq!(
        rows.iter().map(|r| (r.branch.as_str(), r.depth)).collect::<Vec<_>>(),
        vec![("feat/a", 1), ("feat/b", 2)]
    );
    assert!(rows[0].is_last);
    let mut facts = no_facts();
    facts.worktree = Some("/repo/.worktrees/feat-a".to_string());
    let parts = line_parts(&state, "feat/a", "feat/b", facts).expect("human log");
    assert_eq!(parts.worktree.as_deref(), Some("[wt: feat-a]"));
    assert_eq!(parts.commits, " 1 commit");
    assert!(parts.pr.is_none());
    assert!(!parts.is_current);
    let entry = to_value(&json_entry(&state, "feat/b", "owner/repo", None, None).expect("json log"));
    assert_eq!(entry["depth"], 2);
    assert!(entry["pr_number"].is_null());
    let inspection = settled(&state, "feat/b");
    let entry = to_value(
        &json_entry(&state, "feat/b", "owner/repo", None, Some(&inspection)).expect("native log"),
    );
    assert_eq!(entry["native_stack"]["state"], "not_applicable");
    assert!(json_entry(&state, "main", "owner/repo", None, None).is_err());
}

#[test]
fn renders_pr_status_ci_and_json_url_from_fake_github() {
    let state = real_stack(Some(7));
    let mut facts = no_facts();
    facts.pr = Some(PrInfo {
        number: 7,
        url: "https://github.com/owner/repo/pull/7".to_string(),
        state: "OPEN".to_string(),
        title: "A".to_string(),
        base: "main".to_string(),
        is_draft: true,
        merged: false,
    });
    facts.ci = "✓".to_string();
    facts.commits = 2;
    let parts = line_parts(&state, "feat/a", "feat/a", facts).expect("human log with PR");
    assert_eq!(parts.ci.as_deref(), Some("✓"));
    assert_eq!(parts.commits, " 2 commits");
    assert!(parts.is_current);
    let shown = parts.pr.expect("pr");
    assert_eq!(shown.0, 7);
    assert_eq!(shown.3.as_deref(), Some("draft"));
    let entry = to_value(
        &json_entry(&state, "feat/a", "owner/repo", Some(("OPEN".to_string(), true)), None)
            .expect("json log with PR"),
    );
    assert_eq!(entry["pr_url"], "https://github.com/owner/repo/pull/7");
    assert_eq!(entry["is_draft"], true);
}

#[test]
fn json_log_uses_null_url_when_repo_is_unknown() {
    let state = real_stack(Some(9));
    let entry = to_value(&json_entry(&state, "feat/a", "", None, None).expect("json log"));
    assert!(entry["pr_url"].is_null());
    assert_eq!(entry["pr_number"], 9);
    assert_eq!(entry["pr_state"], "OPEN");
}

#[test]
fn tree_shows_siblings_by_name() {
    let mut state = fork_state();
    state.add_branch("line-aa", "line-a", "x", None, None);
    let rows = tree(&state);
    assert_eq!(
        rows.iter().map(|r| r.branch.as_str()).collect::<Vec<_>>(),
        vec!["line-a", "line-aa", "line-b"]
    );
    assert!(!rows[0].is_last);
    assert_eq!(rows[1].ancestors_last, vec![false]);
    assert!(rows[2].is_last);
}

#[test]
fn reports_parent_and_rejects_trunk_or_unmanaged_branches() {
    let mut state = StackState::new("main".to_string());
    assert!(parent::run(&state, "main")
        .expect_err("trunk must fail")
        .message()
        .contains("trunk"));
    assert!(parent::run(&state, "outside")
        .expect_err("unmanaged must fail")
        .message()
        .contains("not tracked by ez"));
    state.add_branch("feat/topic", "main", "m0", None, None);
    assert_eq!(parent::run(&state, "feat/topic").expect("managed parent succeeds"), "main");
    assert_eq!(diff::run(&state, "feat/topic").unwrap(), "main...HEAD");
    assert!(diff::run(&state, "main").is_err());
}

#[test]
fn branch_listing_marks_the_current_branch() {
    let state = fork_state();
    let mut places = NameMap::new();
    places.insert("line-b".to_string(), "/w/b".to_string());
    assert_eq!(
        branch::run(&state, "line-b", &places),
        vec![
            "  main (trunk)".to_string(),
            "  line-a #10".to_string(),
            "* line-b #20 /w/b".to_string(),
        ]
    );
    assert_eq!(
        branch::run(&state, "scratch", &NameMap::new()).last().unwrap(),
        "* scratch (not tracked by ez)"
    );
}

#[test]
fn repaired_and_extended_outcomes_have_receipts() {
    let none: Vec<String> = Vec::new();
    let line = receipt_line(&receipt_value(
        "sync",
        &none,
        &Vec::new(),
        &NativeStackOutcome::Repaired { previous_number: 4, number: 5 },
    ));
    assert_eq!(
        line,
        "{\"cmd\":\"sync\",\"native_stack_action\":\"repaired\",\"native_stack_number\":5,\"native_stack_previous_number\":4}"
    );
    let line = receipt_line(&receipt_value(
        "sync",
        &none,
        &Vec::new(),
        &NativeStackOutcome::Extended { number: 4, added: 2 },
    ));
    assert!(line.contains("\"native_stack_added\":2"));
}
