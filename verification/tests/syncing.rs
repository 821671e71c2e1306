use ez_stack::cmd::autostash::{StashEvent, StashStage, StashedSync};
use ez_stack::cmd::fold::WorktreeStatus;
use ez_stack::cmd::merge::{
    self, exact_native_stack_match, inside_any_target, merge_notes, merge_receipt_value,
    merge_targets, merges_natively, native_merge_receipt_value, preflight_clean_linked_worktrees,
    MergeOutcome, MergeStart, MergeTarget, NativeMergeOutcome,
};
use ez_stack::cmd::merge_series::MergeSeries;
use ez_stack::cmd::merging::{MergePhase, MergeReply, MergeResult, Merging};
use ez_stack::cmd::native_stack::SkippedNativeStackComponent;
use ez_stack::cmd::restack::{RestackFailure, RestackFailureKind, RestackReport};
use ez_stack::cmd::sync::{
    self, branch_worktree_map, cleanup_candidate_branches, cleanup_reason, inside_worktree_path,
    managed_order, native_follow_up, orphaned_ez_worktrees, pr_base_receipt, pr_query, preview,
    return_plan, skipped_native_stack_receipt, stale_bases_receipt, sync_summary,
    update_reparented_pr_bases, NativeFollowUp, PrQuery, PreviewItem, ReturnPlan, SyncEvent,
    SyncFinalize, SyncStage,
};
use ez_stack::cmd::sync_cleanup::{
    Cleanup, CleanupAction, CleanupFacts, CleanupReply, CleanupResult,
};
use ez_stack::cmd::sync_finalize::{Closing, ClosingPhase, ClosingReply};
use ez_stack::cmd::sync_native::{LinkReply, NativeSync};
use ez_stack::cmd::sync_prune::{existing_orphans, Prune, PruneAction, PruneFacts, PruneReply};
use ez_stack::error::EzError;
use ez_stack::git::{GitView, WorktreeInfo};
use ez_stack::github::{MergePrOutcome, NativeStackInfo, NativeStackOutcome, PrInfo};
use ez_stack::json::{receipt_line, to_value, Json, JsonObject};
use ez_stack::name_map::NameMap;
use ez_stack::stack::StackState;

fn target(branch: &str, pr_number: u64) -> MergeTarget {
    MergeTarget { branch: branch.to_string(), pr_number }
}

fn status(path: &str, untracked: usize) -> WorktreeStatus {
    WorktreeStatus { path: path.to_string(), staged: 0, modified: 0, untracked }
}

#[test]
fn merge_fold_extra_preflight_skips_targets_without_linked_worktrees() {
    let targets = vec![target("feat/no-worktree", 7)];
    preflight_clean_linked_worktrees(&targets, &NameMap::new(), &NameMap::new())
        .expect("missing linked worktree should be skipped");
}

#[test]
fn merge_fold_extra_merge_targets_require_pr_metadata() {
    let mut state = StackState::new("main".to_string());
    state.add_branch("feat/no-pr", "main", "main-sha", None, None);

    let err = match merge_targets(&state, "feat/no-pr", false) {
        Ok(_) => panic!("missing PR should abort"),
        Err(err) => err,
    };

    assert!(
        err.message().contains("has no associated PR"),
        "unexpected error: {}",
        err.message()
    );
}

#[test]
fn merge_fold_extra_single_target_is_not_native_stack_match() {
    let targets = vec![target("feat/one", 9)];
    let info = native(vec![9]);
    assert!(!exact_native_stack_match(&targets, None));
    assert!(!exact_native_stack_match(&targets, Some(&info)));
}

fn native(prs: Vec<u64>) -> NativeStackInfo {
    NativeStackInfo { number: 5, base_ref: None, open: None, pull_requests: prs }
}

/// What a merge does around the record: what it was asked for, in order.
struct MergeRepo {
    branches: Vec<String>,
    remote: Vec<String>,
    worktrees: Vec<String>,
    current: String,
    inside: bool,
    puts: usize,
    asked: Vec<u64>,
    saved: Option<bool>,
    pushed: Vec<String>,
    answer: MergeReplyKind,
    remove_fails: bool,
    publish_fails: bool,
    behind: bool,
    moved: Vec<String>,
    log: Vec<MergePhase>,
}

#[derive(Clone, Copy, PartialEq)]
enum MergeReplyKind {
    Merged,
    Enqueued,
    Refused,
}

impl MergeRepo {
    fn new(branches: &[&str]) -> MergeRepo {
        MergeRepo {
            branches: branches.iter().map(|b| b.to_string()).collect(),
            remote: branches.iter().map(|b| b.to_string()).collect(),
            worktrees: branches.iter().map(|b| format!("/w/{b}")).collect(),
            current: "main".to_string(),
            inside: false,
            puts: 0,
            asked: Vec::new(),
            saved: None,
            pushed: Vec::new(),
            answer: MergeReplyKind::Merged,
            remove_fails: false,
            publish_fails: false,
            behind: false,
            moved: Vec::new(),
            log: Vec::new(),
        }
    }

    fn map(&self) -> NameMap<String> {
        let mut map = NameMap::new();
        for b in &self.branches {
            let path = format!("/w/{b}");
            if self.worktrees.contains(&path) {
                map.insert(b.clone(), path);
            }
        }
        map
    }

    fn drive(&mut self, mut m: Merging) -> MergeResult {
        loop {
            let phase = m.phase();
            self.log.push(phase);
            let reply = match phase {
                MergePhase::Merge => {
                    self.puts += 1;
                    self.asked.extend(m.request());
                    match self.answer {
                        MergeReplyKind::Merged => MergeReply::Merged(MergePrOutcome::Merged),
                        MergeReplyKind::Enqueued => MergeReply::Merged(MergePrOutcome::Enqueued),
                        MergeReplyKind::Refused => MergeReply::Failed(
                            "the merge API is not available; ez will not fall back".to_string(),
                        ),
                    }
                }
                MergePhase::Publish => {
                    if self.publish_fails {
                        MergeReply::Failed("gh pr edit failed".to_string())
                    } else {
                        MergeReply::Done
                    }
                }
                MergePhase::Save | MergePhase::SaveAgain => {
                    self.saved = Some(true);
                    MergeReply::Done
                }
                MergePhase::MoveOut => {
                    self.inside = false;
                    MergeReply::Done
                }
                MergePhase::RemoveWorktree => {
                    if self.remove_fails {
                        MergeReply::Failed("simulated worktree remove failure".to_string())
                    } else {
                        let b = m.branch().unwrap().clone();
                        let path = m.worktree(&b).unwrap().clone();
                        self.worktrees.retain(|w| *w != path);
                        MergeReply::Done
                    }
                }
                MergePhase::Look => {
                    let b = m.branch().unwrap();
                    MergeReply::Branch {
                        there: self.branches.contains(b),
                        current: self.current == *b,
                    }
                }
                MergePhase::Checkout => {
                    self.current = "main".to_string();
                    MergeReply::Done
                }
                MergePhase::DeleteBranch => {
                    let b = m.branch().unwrap().clone();
                    assert_ne!(self.current, b);
                    self.branches.retain(|x| *x != b);
                    MergeReply::Done
                }
                MergePhase::DeleteRemote => {
                    let b = m.branch().unwrap().clone();
                    self.remote.retain(|x| *x != b);
                    MergeReply::Done
                }
                MergePhase::Fetch | MergePhase::UpdateTrunk => MergeReply::Done,
                MergePhase::Restack => {
                    let mut state = m.state().copy();
                    for b in &self.moved {
                        let parent = state.get_branch(b).unwrap().parent.clone();
                        state.set_parent(b, &parent, "landed-head").unwrap();
                    }
                    let behind: &[&str] = if self.behind { &["feat/sibling"] } else { &[] };
                    MergeReply::Restacked { state, report: restack_report(&self.moved, behind) }
                }
                MergePhase::Push => {
                    self.pushed.push(m.branch().unwrap().clone());
                    MergeReply::Done
                }
                MergePhase::Finished | MergePhase::Failed => return m.finish(),
            };
            m = m.step(reply);
        }
    }
}

fn restack_report(moved: &[String], behind: &[&str]) -> RestackReport {
    RestackReport {
        restacked: moved.len(),
        restacked_branches: moved.to_vec(),
        failures: behind
            .iter()
            .map(|b| RestackFailure {
                branch: b.to_string(),
                parent: "main".to_string(),
                kind: RestackFailureKind::Conflict,
            })
            .collect(),
    }
}

fn linked_state() -> StackState {
    let mut state = StackState::new("main".to_string());
    state.add_branch("feat/linked", "main", "m0", None, None);
    state.set_pr_number("feat/linked", Some(42)).unwrap();
    state
}

#[test]
fn merge_fold_extra_cleanup_switches_off_current_branch_before_delete() {
    let state = linked_state();
    let mut repo = MergeRepo::new(&["feat/linked"]);
    repo.worktrees.clear();
    repo.current = "feat/linked".to_string();
    let m = Merging::begin(&state, vec![target("feat/linked", 42)], repo.map(), false);
    repo.drive(m);
    assert_eq!(repo.current, "main");
    assert!(repo.branches.is_empty());
}

#[test]
fn merge_fold_extra_reparented_child_pr_base_failure_warns_but_merges_parent() {
    let mut state = StackState::new("main".to_string());
    state.add_branch("feat/reparent-parent", "main", "m0", None, None);
    state.set_pr_number("feat/reparent-parent", Some(61)).unwrap();
    state.add_branch("feat/reparent-child", "feat/reparent-parent", "p0", None, None);
    state.set_pr_number("feat/reparent-child", Some(62)).unwrap();
    let mut repo = MergeRepo::new(&["feat/reparent-parent", "feat/reparent-child"]);
    repo.publish_fails = true;
    let m = Merging::begin(
        &state,
        vec![target("feat/reparent-parent", 61)],
        repo.map(),
        false,
    );
    let m = m.step(MergeReply::Merged(MergePrOutcome::Merged));
    assert_eq!(m.updates().len(), 1);
    assert_eq!((m.updates()[0].pr_number, m.updates()[0].base.as_str()), (62, "main"));
    let result = repo.drive(m);
    assert!(result.error.is_none(), "parent merge should complete");
    assert!(!repo.branches.contains(&"feat/reparent-parent".to_string()));
    assert!(repo.branches.contains(&"feat/reparent-child".to_string()));
    assert_eq!(result.state.get_branch("feat/reparent-child").expect("child").parent, "main");
}

#[test]
fn merge_receipt_includes_removed_worktree_when_present() {
    let outcome = MergeOutcome {
        branch: "feat/linked".to_string(),
        pr_number: 42,
        status: MergePrOutcome::Merged,
        restacked: 0,
        pushed: Vec::new(),
        worktree: Some("/repo/.worktrees/feat-linked".to_string()),
    };

    let receipt = to_value(&merge_receipt_value(&outcome, "squash", false));

    assert_eq!(receipt["cmd"], "merge");
    assert_eq!(receipt["branch"], "feat/linked");
    assert_eq!(receipt["status"], "merged");
    assert_eq!(receipt["worktree"], "/repo/.worktrees/feat-linked");
}

#[test]
fn merge_from_current_linked_worktree_cleans_up_worktree_branch_and_state() {
    let state = linked_state();
    let mut repo = MergeRepo::new(&["feat/linked"]);
    repo.inside = inside_any_target(&vec![target("feat/linked", 42)], &repo.map(), "/w/feat/linked");
    assert!(repo.inside);
    let m = Merging::begin(&state, vec![target("feat/linked", 42)], repo.map(), repo.inside);
    let result = repo.drive(m);
    assert!(result.error.is_none(), "merge should succeed");
    assert_eq!(repo.puts, 1, "GitHub merge PUT should occur");
    assert!(!repo.inside, "the process leaves the worktree");
    assert!(repo.worktrees.is_empty(), "linked worktree should be removed");
    assert!(repo.branches.is_empty(), "local branch should be deleted");
    assert!(repo.remote.is_empty(), "remote branch should be deleted after merged cleanup");
    assert!(!result.state.branches.contains_key("feat/linked"));
}

#[test]
fn merged_branch_is_cleaned_up_even_when_the_post_merge_restack_fails() {
    let mut state = linked_state();
    state.add_branch("feat/sibling", "main", "m0", None, None);
    let mut repo = MergeRepo::new(&["feat/linked", "feat/sibling"]);
    repo.behind = true;
    let m = Merging::begin(&state, vec![target("feat/linked", 42)], repo.map(), true);
    let result = repo.drive(m);
    assert!(
        matches!(result.error, Some(EzError::RestackIncomplete { .. })),
        "the conflicting sibling should still surface as a restack failure"
    );
    assert!(!repo.worktrees.contains(&"/w/feat/linked".to_string()));
    assert!(!repo.branches.contains(&"feat/linked".to_string()));
    assert!(!result.state.branches.contains_key("feat/linked"));
}

#[test]
fn merge_rejects_dirty_target_worktree_before_github_merge() {
    let mut state = StackState::new("main".to_string());
    state.add_branch("feat/dirty", "main", "m0", None, None);
    state.set_pr_number("feat/dirty", Some(43)).unwrap();
    let targets = merge_targets(&state, "feat/dirty", false).expect("targets");
    let mut fleet = NameMap::new();
    fleet.insert("feat/dirty".to_string(), status("/w/feat-dirty", 1));
    let mut repo = MergeRepo::new(&["feat/dirty"]);
    let err = match preflight_clean_linked_worktrees(&targets, &NameMap::new(), &fleet) {
        Ok(_) => {
            repo.drive(Merging::begin(&state, vec![target("feat/dirty", 43)], repo.map(), true));
            panic!("dirty worktree should abort")
        }
        Err(err) => err,
    };
    assert_eq!(repo.puts, 0, "dirty preflight must abort before GitHub merge PUT");
    assert_eq!(repo.worktrees.len(), 1, "worktree should remain");
    assert_eq!(repo.branches.len(), 1, "local branch should remain");
    assert!(state.branches.contains_key("feat/dirty"), "stack state should preserve dirty branch");
    let message = err.message();
    assert!(message.contains("feat/dirty"), "error should name branch: {message}");
    assert!(message.contains("/w/feat-dirty"), "error should name worktree path: {message}");
    assert!(
        message.contains("commit/stash") || message.contains("clean"),
        "error should tell user how to proceed: {message}"
    );
    let mut clean = NameMap::new();
    clean.insert("feat/dirty".to_string(), status("/w/feat-dirty", 0));
    let mut guards = NameMap::new();
    guards.insert("feat/dirty".to_string(), "leased by codex-1".to_string());
    assert_eq!(
        preflight_clean_linked_worktrees(&targets, &guards, &clean).unwrap_err().message(),
        "leased by codex-1"
    );
}

#[test]
fn merge_enqueued_preserves_current_linked_worktree_branch_state_and_remote() {
    let mut state = StackState::new("main".to_string());
    state.add_branch("feat/enqueued", "main", "m0", None, None);
    state.set_pr_number("feat/enqueued", Some(44)).unwrap();
    let mut repo = MergeRepo::new(&["feat/enqueued"]);
    repo.answer = MergeReplyKind::Enqueued;
    repo.inside = true;
    let m = Merging::begin(&state, vec![target("feat/enqueued", 44)], repo.map(), true);
    let result = repo.drive(m);
    assert!(result.error.is_none(), "enqueued merge should succeed");
    assert_eq!(result.status, Some(MergePrOutcome::Enqueued));
    assert_eq!(repo.puts, 1, "one merge PUT should occur");
    assert!(repo.inside, "enqueued merge should leave cwd inside the linked worktree");
    assert_eq!(repo.worktrees.len(), 1, "linked worktree should be preserved");
    assert_eq!(repo.branches.len(), 1, "local branch should be preserved");
    assert_eq!(repo.remote.len(), 1, "remote branch should be preserved");
    assert!(result.state.branches.contains_key("feat/enqueued"));
    assert_eq!(repo.saved, None);
}

fn stack_state() -> StackState {
    let mut state = StackState::new("main".to_string());
    state.add_branch("feat/first", "main", "m0", None, None);
    state.add_branch("feat/second", "feat/first", "f0", None, None);
    state.set_pr_number("feat/first", Some(101)).unwrap();
    state.set_pr_number("feat/second", Some(102)).unwrap();
    state
}

#[test]
fn native_stack_exact_match_merges_top_once_and_cleans_all_targets() {
    let state = stack_state();
    let targets = merge_targets(&state, "feat/first", true).expect("targets");
    assert_eq!(targets.len(), 2);
    assert!(merges_natively(&state, &targets, true, Some(&native(vec![101, 102]))));
    let mut repo = MergeRepo::new(&["feat/first", "feat/second"]);
    let m = Merging::begin(&state, targets, repo.map(), true);
    let result = repo.drive(m);
    assert!(result.error.is_none());
    assert_eq!(repo.puts, 1, "only top PR should merge");
    assert!(repo.asked.contains(&102), "top PR should be merged");
    assert!(!repo.asked.contains(&101), "bottom PR should not be merged separately");
    assert!(!repo.inside, "the process is out of the worktrees");
    assert!(repo.worktrees.is_empty());
    assert!(repo.branches.is_empty());
    assert!(repo.remote.is_empty());
    assert!(!result.state.branches.contains_key("feat/first"));
    assert!(!result.state.branches.contains_key("feat/second"));
    assert_eq!(result.state.branches.len(), 0);
}

#[test]
fn native_stack_merged_restacks_side_branch_and_pushes_it() {
    let mut state = stack_state();
    state.add_branch("feat/side", "feat/first", "f0", None, None);
    let mut repo = MergeRepo::new(&["feat/first", "feat/second", "feat/side"]);
    repo.moved = vec!["feat/side".to_string()];
    let targets = vec![target("feat/first", 101), target("feat/second", 102)];
    let m = Merging::begin(&state, targets, repo.map(), false);
    let result = repo.drive(m);
    assert_eq!(repo.puts, 1, "only top PR should merge");
    assert_eq!(repo.asked, vec![102]);
    assert_eq!(repo.worktrees, vec!["/w/feat/side".to_string()], "side worktree remains");
    let side = result.state.get_branch("feat/side").expect("side meta");
    assert_eq!(side.parent, "main");
    assert_eq!(side.parent_head, "landed-head");
    assert!(!result.state.branches.contains_key("feat/first"));
    assert!(!result.state.branches.contains_key("feat/second"));
    assert_eq!(repo.pushed, vec!["feat/side".to_string()], "side branch should be pushed");
    assert_eq!(result.pushed, repo.pushed);
}

#[test]
fn native_stack_enqueued_merges_top_once_and_preserves_all_targets() {
    let state = stack_state();
    let mut repo = MergeRepo::new(&["feat/first", "feat/second"]);
    repo.answer = MergeReplyKind::Enqueued;
    let targets = vec![target("feat/first", 101), target("feat/second", 102)];
    let m = Merging::begin(&state, targets, repo.map(), true);
    let result = repo.drive(m);
    assert_eq!(repo.puts, 1, "only top PR should enqueue");
    assert_eq!(repo.asked, vec![102], "top PR should be enqueued");
    for b in ["feat/first", "feat/second"] {
        assert!(repo.worktrees.contains(&format!("/w/{b}")), "worktree of {b} remains");
        assert!(repo.branches.contains(&b.to_string()), "local {b} remains");
        assert!(repo.remote.contains(&b.to_string()), "remote {b} remains");
    }
    assert!(result.state.branches.contains_key("feat/first"));
    assert!(result.state.branches.contains_key("feat/second"));
}

fn merge_one_by_one(state: &StackState, targets: Vec<MergeTarget>) -> usize {
    let mut repo = MergeRepo::new(&["feat/first", "feat/second"]);
    let mut state = state.copy();
    for t in targets {
        let m = Merging::begin(&state, vec![t], repo.map(), false);
        state = repo.drive(m).state;
    }
    assert_eq!(state.branches.len(), 0);
    repo.puts
}

#[test]
fn native_stack_mismatch_uses_sequential_merge_path() {
    let state = stack_state();
    let targets = merge_targets(&state, "feat/first", true).expect("targets");
    assert!(!merges_natively(&state, &targets, true, Some(&native(vec![999]))));
    assert_eq!(
        merge_one_by_one(&state, targets),
        2,
        "mismatched native stack should merge each target sequentially"
    );
}

#[test]
fn native_stack_empty_lookup_uses_sequential_merge_path() {
    let state = stack_state();
    let targets = merge_targets(&state, "feat/first", true).expect("targets");
    assert!(!merges_natively(&state, &targets, true, None));
    assert_eq!(
        merge_one_by_one(&state, targets),
        2,
        "empty native stack lookup should merge each target sequentially"
    );
}

#[test]
fn native_stack_merge_404_preserves_local_state_without_legacy_fallback() {
    let mut state = StackState::new("main".to_string());
    state.add_branch("feat/a", "main", "aaa", None, None);
    state.add_branch("feat/b", "feat/a", "bbb", None, None);
    let mut repo = MergeRepo::new(&["feat/a", "feat/b"]);
    repo.answer = MergeReplyKind::Refused;
    let m = Merging::begin(
        &state,
        vec![target("feat/a", 1), target("feat/b", 2)],
        repo.map(),
        false,
    );
    let result = repo.drive(m);
    let err = result.error.expect("native stack merge must reject unavailable async API");
    assert!(err.message().contains("will not fall back"));
    assert!(result.state.branches.contains_key("feat/a"));
    assert!(result.state.branches.contains_key("feat/b"));
    assert_eq!(repo.puts, 1, "legacy merge endpoint must not be called");
}

#[test]
fn merged_current_worktree_moves_to_main_before_cleanup_failure_and_persists_state() {
    let state = linked_state();
    let mut repo = MergeRepo::new(&["feat/linked"]);
    repo.inside = true;
    repo.remove_fails = true;
    let m = Merging::begin(&state, vec![target("feat/linked", 42)], repo.map(), true);
    let result = repo.drive(m);
    assert!(result
        .error
        .expect("worktree removal should fail")
        .message()
        .contains("simulated worktree remove failure"));
    assert!(!repo.inside, "process cwd should move to main before cleanup failure");
    assert_eq!(repo.worktrees.len(), 1, "failed worktree remains");
    assert_eq!(repo.branches.len(), 1, "local branch should remain when cleanup fails");
    assert_eq!(repo.saved, Some(true));
    assert!(
        !result.state.branches.contains_key("feat/linked"),
        "state removal should be persisted before destructive cleanup"
    );
}

#[test]
fn merge_asks_unless_agreed() {
    let one = vec![target("feat/a", 4)];
    assert!(matches!(merge::run(&Vec::new(), false, false, ""), MergeStart::Nothing));
    assert!(matches!(merge::run(&one, false, true, "T"), MergeStart::Go));
    assert!(matches!(
        merge::run(&one, false, false, "T"),
        MergeStart::Confirm(q) if q == "Merge PR #4 for `feat/a` (T)?"
    ));
    let two = vec![target("feat/a", 4), target("feat/b", 5)];
    assert!(matches!(
        merge::run(&two, true, false, ""),
        MergeStart::Confirm(q)
            if q == "Merge 2 PRs from the current stack (#4 `feat/a`, #5 `feat/b`)?"
    ));
}

#[test]
fn merge_notes_tell_the_totals() {
    let outcome = |branch: &str, status: MergePrOutcome, pushed: usize| MergeOutcome {
        branch: branch.to_string(),
        pr_number: 1,
        status,
        restacked: pushed,
        pushed: vec!["x".to_string(); pushed],
        worktree: None,
    };
    assert_eq!(
        merge_notes(
            &vec![
                outcome("a", MergePrOutcome::Merged, 2),
                outcome("b", MergePrOutcome::Enqueued, 1)
            ],
            3,
            true
        ),
        vec![
            "Restacked 3 branch(es)".to_string(),
            "Updated 3 remote branch(es) after restack".to_string(),
            "Merge enqueued for `b`".to_string(),
        ]
    );
    assert_eq!(
        merge_notes(&vec![outcome("a", MergePrOutcome::Merged, 0)], 1, false),
        vec!["Merge complete".to_string()]
    );
    assert_eq!(
        merge_notes(&vec![outcome("a", MergePrOutcome::Merged, 0)], 1, true),
        vec!["Merged 1 PR(s) from the current stack".to_string()]
    );
    let receipt = to_value(&native_merge_receipt_value(
        &NativeMergeOutcome {
            status: MergePrOutcome::Enqueued,
            branches: vec!["a".to_string()],
            pr_numbers: vec![1],
            merged_pr_number: 1,
        },
        "squash",
    ));
    assert_eq!(receipt["mode"], "native_stack");
    assert_eq!(receipt["status"], "enqueued");
}

#[test]
fn run_signatures_compile() {
    let f: fn(&StackState) -> sync::SyncRun = sync::run;
    let run = f(&StackState::new("main".to_string()));
    assert_eq!(run.stage, SyncStage::Fetch);
    assert_eq!(run.remote, "origin");
}

#[test]
fn orphaned_ez_worktrees_only_claims_untracked_branches_in_ez_owned_worktrees() {
    let mut state = StackState::new("main".to_string());
    state.add_branch("feat/tracked", "main", "aaa", None, None);

    let mut worktrees = NameMap::new();
    for (b, p) in [
        ("feat/orphan", "/repo/.worktrees/feat-orphan"),
        ("feat/tracked", "/repo/.worktrees/feat-tracked"),
        ("feat/external", "/elsewhere/feat-external"),
        ("main", "/repo/.worktrees/main"),
    ] {
        worktrees.insert(b.to_string(), p.to_string());
    }

    let orphans = orphaned_ez_worktrees(&state, "/repo", &worktrees);

    assert_eq!(
        orphans,
        vec![("feat/orphan".to_string(), "/repo/.worktrees/feat-orphan".to_string())]
    );
}

#[test]
fn orphaned_ez_worktrees_anchors_ownership_to_this_repo_root() {
    let state = StackState::new("main".to_string());
    let main_root = "/home/dev/.worktrees/project";
    let mut worktrees = NameMap::new();
    worktrees.insert(
        "feat/ours".to_string(),
        "/home/dev/.worktrees/project/.worktrees/feat-ours".to_string(),
    );
    worktrees.insert(
        "feat/theirs".to_string(),
        "/home/dev/.worktrees/some-other-tool".to_string(),
    );

    let orphans = orphaned_ez_worktrees(&state, main_root, &worktrees);

    assert_eq!(
        orphans,
        vec![(
            "feat/ours".to_string(),
            "/home/dev/.worktrees/project/.worktrees/feat-ours".to_string()
        )],
        "only worktrees under this repo's own .worktrees/ are ez-owned"
    );
}

fn prune(orphans: Vec<(String, String)>, prs: NameMap<PrInfo>, facts: PruneFacts) -> (Vec<String>, Vec<String>) {
    let mut p = Prune::begin(orphans, prs);
    let mut removed = Vec::new();
    loop {
        let reply = match p.action() {
            PruneAction::Observe { .. } => PruneReply::Observed(facts),
            PruneAction::MoveOut { .. } => PruneReply::Done,
            PruneAction::Remove { path, .. } => {
                removed.push(path);
                PruneReply::Done
            }
            PruneAction::Delete { .. } => PruneReply::Done,
            PruneAction::Finished => return (p.finish().cleaned, removed),
        };
        p = p.step(reply);
    }
}

fn prune_facts(tip: bool, content: bool) -> PruneFacts {
    PruneFacts { tip_in_trunk: tip, content_in_trunk: content, inside: false }
}

#[test]
fn prune_orphaned_ez_worktrees_ignores_branches_the_tracked_pass_already_cleaned() {
    let state = StackState::new("main".to_string());
    let listed = branch_worktree_map(
        &vec![WorktreeInfo {
            path: "/repo".to_string(),
            branch: Some("main".to_string()),
            locked_reason: None,
        }],
        "/repo",
    );
    let orphans = orphaned_ez_worktrees(&state, "/repo", &listed);
    let orphans = existing_orphans(&orphans, &vec!["main".to_string()]);
    let (cleaned, _) = prune(orphans, NameMap::new(), prune_facts(true, true));
    assert!(
        cleaned.is_empty(),
        "a branch already cleaned by the tracked pass must not be revisited as an orphan"
    );
    let gone = vec![("feat/gone".to_string(), "/repo/.worktrees/feat-gone".to_string())];
    assert!(existing_orphans(&gone, &vec!["main".to_string()]).is_empty());
}

#[test]
fn prune_orphaned_ez_worktrees_keeps_an_orphan_git_cannot_confirm_is_merged() {
    let orphan =
        || vec![("feat/recycled".to_string(), "/repo/.worktrees/feat-recycled".to_string())];
    let mut prs = NameMap::new();
    let mut old = pr("CLOSED");
    old.merged = true;
    prs.insert("feat/recycled".to_string(), old);
    let (cleaned, removed) = prune(orphan(), prs, prune_facts(false, false));
    assert!(cleaned.is_empty(), "an orphan whose commits are not in trunk must be kept");
    assert!(removed.is_empty(), "the worktree must survive");
    let (cleaned, removed) = prune(orphan(), NameMap::new(), prune_facts(true, false));
    assert_eq!(cleaned, vec!["feat/recycled".to_string()]);
    assert_eq!(removed.len(), 1);
}

#[test]
fn cleanup_candidate_branches_excludes_local_unmanaged_branches() {
    let managed = vec!["main".to_string(), "feat/a".to_string(), "feat/a".to_string()];

    assert_eq!(cleanup_candidate_branches("main", &managed), vec!["feat/a".to_string()]);
}

fn pr(state: &str) -> PrInfo {
    PrInfo {
        number: 42,
        url: String::new(),
        state: state.to_string(),
        title: String::new(),
        base: "main".to_string(),
        is_draft: false,
        merged: false,
    }
}

#[test]
fn cleanup_reason_prefers_pr_state() {
    let closed = pr("CLOSED");
    let mut merged = pr("CLOSED");
    merged.merged = true;

    assert_eq!(cleanup_reason(Some(&merged), false, false), Some("merged"));
    assert_eq!(cleanup_reason(Some(&closed), false, false), Some("pr_closed"));
    assert_eq!(cleanup_reason(Some(&pr("OPEN")), true, true), None);
    assert_eq!(cleanup_reason(None, true, false), Some("merged"));
    assert_eq!(cleanup_reason(None, false, true), Some("merged"));
    assert_eq!(cleanup_reason(None, false, false), None);
}

#[test]
fn inside_worktree_path_matches_nested_paths_only() {
    assert!(inside_worktree_path("/repo/.worktrees/feat-a", "/repo/.worktrees/feat-a"));
    assert!(inside_worktree_path(
        "/repo/.worktrees/feat-a/src/components",
        "/repo/.worktrees/feat-a"
    ));
    assert!(!inside_worktree_path("/repo/.worktrees/feat-ab", "/repo/.worktrees/feat-a"));
}

#[test]
fn skipped_native_stack_receipt_explains_branching_component() {
    let value = to_value(&skipped_native_stack_receipt(&SkippedNativeStackComponent {
        root: "feat/a".to_string(),
        branches: vec!["feat/a".to_string(), "feat/b".to_string(), "feat/c".to_string()],
        pr_numbers: vec![101, 102, 103],
        reason: "branching_component",
    }));

    assert_eq!(value["cmd"], "sync");
    assert_eq!(value["native_stack_action"], "skipped");
    assert_eq!(value["native_stack_reason"], "branching_component");
    assert_eq!(value["native_stack_root"], "feat/a");
}

fn cleanup_facts() -> CleanupFacts {
    CleanupFacts {
        branch_exists: true,
        parent_exists: true,
        tip_in_trunk: false,
        diff_is_empty: false,
        guard: None,
        inside: false,
    }
}

fn clean(
    state: &StackState,
    prs: NameMap<PrInfo>,
    worktrees: NameMap<String>,
    guard: Option<&str>,
    remove_fails: bool,
) -> (CleanupResult, Vec<String>) {
    let candidates = cleanup_candidate_branches(&state.trunk, &managed_order(state));
    let mut c = Cleanup::begin(state, candidates, prs, worktrees, "main");
    let mut removed = Vec::new();
    loop {
        let reply = match c.action() {
            CleanupAction::Observe { .. } => {
                let mut f = cleanup_facts();
                f.guard = guard.map(|g| g.to_string());
                CleanupReply::Observed(f)
            }
            CleanupAction::Remove(path) => {
                if remove_fails {
                    CleanupReply::Failed("contains modified files".to_string())
                } else {
                    removed.push(path);
                    CleanupReply::Done
                }
            }
            CleanupAction::MoveOut(_) | CleanupAction::Checkout(_) | CleanupAction::Delete(_) => {
                CleanupReply::Done
            }
            CleanupAction::Finished => return (c.finish(), removed),
        };
        c = c.step(reply);
    }
}

fn merged_prs() -> NameMap<PrInfo> {
    let mut prs = NameMap::new();
    let mut merged = pr("MERGED");
    merged.merged = true;
    prs.insert("feat/first".to_string(), merged);
    prs.insert("feat/second".to_string(), pr("OPEN"));
    prs
}

fn first_worktree() -> NameMap<String> {
    let mut map = NameMap::new();
    map.insert("feat/first".to_string(), "/w/first".to_string());
    map
}

#[test]
fn sync_cleans_merged_layers_and_reparents_their_children() {
    let (result, removed) =
        clean(&stack_state(), merged_prs(), first_worktree(), None, false);
    assert_eq!(result.cleaned, vec!["feat/first".to_string()]);
    assert_eq!(removed, vec!["/w/first".to_string()]);
    assert_eq!(result.moved, vec!["feat/second".to_string()]);
    let second = result.state.get_branch("feat/second").unwrap();
    assert_eq!((second.parent.as_str(), second.parent_head.as_str()), ("main", "f0"));
    let updates = update_reparented_pr_bases(&result.state, &result.moved);
    assert_eq!((updates[0].pr_number, updates[0].base.as_str()), (102, "main"));
    assert_eq!(to_value(&pr_base_receipt(&updates[0], &None))["branch"], "feat/second");
    assert_eq!(to_value(&result.receipts[0])["action"], "cleaned");
}

#[test]
fn sync_keeps_dirty_locked_and_open_layers() {
    let (result, removed) = clean(&stack_state(), merged_prs(), first_worktree(), None, true);
    assert!(result.cleaned.is_empty());
    assert!(removed.is_empty());
    assert!(result.state.is_managed("feat/first"));
    assert_eq!(to_value(&result.receipts[0])["action"], "cleanup_skipped");

    let (result, removed) =
        clean(&stack_state(), merged_prs(), first_worktree(), Some("leased"), false);
    assert!(result.cleaned.is_empty());
    assert!(removed.is_empty());
    assert_eq!(to_value(&result.receipts[0])["reason"], "worktree_locked");

    let mut open = NameMap::new();
    open.insert("feat/first".to_string(), pr("OPEN"));
    open.insert("feat/second".to_string(), pr("OPEN"));
    let (result, _) = clean(&stack_state(), open, first_worktree(), None, false);
    assert!(result.cleaned.is_empty());
    assert!(result.receipts.is_empty());
}

fn merged(state: &StackState, status: Option<MergePrOutcome>, pushed: &[&str]) -> MergeResult {
    MergeResult {
        state: state.copy(),
        status,
        pushed: pushed.iter().map(|b| b.to_string()).collect(),
        error: None,
    }
}

#[test]
fn a_series_merges_in_order_until_one_is_queued_or_fails() {
    let state = stack_state();
    let targets = || vec![target("feat/first", 101), target("feat/second", 102)];
    let both = MergeSeries::begin(&state, targets());
    assert_eq!(both.next_target().unwrap().branch, "feat/first");
    let both = both.step(
        merged(&state, Some(MergePrOutcome::Merged), &["feat/second"]),
        Some("/w/first".to_string()),
    );
    assert_eq!(both.next_target().unwrap().pr_number, 102);
    let both = both.step(merged(&state, Some(MergePrOutcome::Merged), &[]), None);
    assert!(both.next_target().is_none());
    assert_eq!(both.outcomes().len(), 2);
    assert_eq!(both.outcomes()[0].restacked, 1);
    assert_eq!(both.outcomes()[0].worktree.as_deref(), Some("/w/first"));
    assert_eq!(both.outcomes()[1].branch, "feat/second");
    assert!(both.finish().is_none());

    let queued = MergeSeries::begin(&state, targets())
        .step(merged(&state, Some(MergePrOutcome::Enqueued), &[]), None);
    assert!(queued.next_target().is_none(), "nothing is merged above a queued merge");
    assert_eq!(queued.outcomes().len(), 1);
    assert!(queued.finish().is_none());

    let mut refused = merged(&state, None, &[]);
    refused.error = Some(EzError::GhError("not mergeable".to_string()));
    let failed = MergeSeries::begin(&state, targets()).step(refused, None);
    assert!(failed.next_target().is_none());
    assert!(failed.outcomes().is_empty());
    assert!(failed.finish().is_some());
    assert!(MergeSeries::begin(&state, Vec::new()).next_target().is_none());
}

#[test]
fn a_merge_pushes_and_saves_before_it_tells_of_branches_left_behind() {
    let state = stack_state();
    let at_restack = || {
        let mut m =
            Merging::begin(&state, vec![target("feat/first", 101)], NameMap::new(), false);
        while m.phase() != MergePhase::Restack {
            let reply = match m.phase() {
                MergePhase::Merge => MergeReply::Merged(MergePrOutcome::Merged),
                MergePhase::Look => MergeReply::Branch { there: false, current: false },
                _ => MergeReply::Done,
            };
            m = m.step(reply);
        }
        m
    };
    let after = |behind: &[&str]| {
        let m = at_restack();
        let left = m.state().copy();
        m.step(MergeReply::Restacked {
            state: left,
            report: restack_report(&["feat/second".to_string()], behind),
        })
    };
    let m = after(&["feat/x", "feat/y"]);
    assert_eq!(m.phase(), MergePhase::Push);
    let m = m.step(MergeReply::Done);
    assert_eq!(m.phase(), MergePhase::SaveAgain);
    let m = m.step(MergeReply::Done);
    assert_eq!(m.phase(), MergePhase::Failed);
    assert!(matches!(
        m.finish().error,
        Some(EzError::RestackIncomplete { count: 2, branches }) if branches == "feat/x, feat/y"
    ));
    let m = after(&[]).step(MergeReply::Done).step(MergeReply::Done);
    assert_eq!(m.phase(), MergePhase::Finished);
    assert!(m.finish().error.is_none());
}

#[test]
fn a_stash_is_put_back_whatever_came_of_the_sync() {
    let behind =
        || EzError::RestackIncomplete { count: 1, branches: "feat/first".to_string() };
    let synced = StashedSync::begin(true)
        .step(StashEvent::Stashed(true))
        .step(StashEvent::Synced(Some(behind())));
    assert_eq!(synced.stage, StashStage::Unstash);
    let ended = synced.step(StashEvent::Restored);
    assert_eq!(ended.stage, StashStage::Ended);
    assert!(!ended.stashed && ended.warning.is_none());
    assert!(matches!(ended.error, Some(EzError::RestackIncomplete { count: 1, .. })));

    let kept = StashedSync::begin(true)
        .step(StashEvent::Stashed(true))
        .step(StashEvent::Synced(None))
        .step(StashEvent::Failed("conflict".to_string()));
    assert!(kept.stashed && kept.error.is_none());
    assert_eq!(kept.warning.as_deref(), Some("Failed to pop autostash: conflict"));

    let clean = StashedSync::begin(true)
        .step(StashEvent::Stashed(false))
        .step(StashEvent::Synced(None));
    assert_eq!(clean.stage, StashStage::Ended);
    assert_eq!(StashedSync::begin(false).stage, StashStage::Sync);
    let refused = StashedSync::begin(true).step(StashEvent::Failed("locked".to_string()));
    assert_eq!(refused.stage, StashStage::Ended);
    assert_eq!(refused.error.unwrap().message(), "locked");
}

#[test]
fn sync_ends_only_after_it_saved() {
    let start = || {
        sync::run(&stack_state())
            .step(SyncEvent::Done)
            .step(SyncEvent::Done)
            .step(SyncEvent::Done)
            .step(SyncEvent::Done)
    };
    assert_eq!(start().stage, SyncStage::Preflight);
    let blocked = start().step(SyncEvent::Preflighted {
        verdict: Err(EzError::UserMessage("blocked".to_string())),
        candidates: 2,
    });
    assert_eq!(blocked.stage, SyncStage::Finalize);
    assert_eq!(blocked.plan.skipped, 2);
    assert!(!blocked.plan.reconcile_native);
    let ended = blocked.step(SyncEvent::Finalized(None));
    assert_eq!(ended.stage, SyncStage::Ended);
    assert_eq!(ended.error.unwrap().message(), "blocked");
    let clean = start()
        .step(SyncEvent::Preflighted { verdict: Ok(()), candidates: 0 })
        .step(SyncEvent::Restacked { report: restack_report(&["feat/first".to_string()], &[]) });
    assert!(clean.plan.reconcile_native);
    assert_eq!(clean.plan.restacked, 1);
    assert!(clean.step(SyncEvent::Finalized(None)).error.is_none());
    let behind = start()
        .step(SyncEvent::Preflighted { verdict: Ok(()), candidates: 2 })
        .step(SyncEvent::Restacked { report: restack_report(&[], &["feat/a", "feat/b"]) });
    assert_eq!(behind.stage, SyncStage::Finalize);
    assert_eq!(behind.plan.skipped, 2);
    assert!(!behind.plan.reconcile_native);
    let behind = behind.step(SyncEvent::Finalized(None));
    assert_eq!(behind.stage, SyncStage::Ended);
    assert!(matches!(
        behind.error,
        Some(EzError::RestackIncomplete { count: 2, branches }) if branches == "feat/a, feat/b"
    ));
    let failed = sync::run(&stack_state())
        .step(SyncEvent::Done)
        .step(SyncEvent::Failed("dirty".to_string()));
    assert!(failed.error.unwrap().message().contains("ez sync --autostash"));
}

fn close(failing: Option<ClosingPhase>) -> (Vec<ClosingPhase>, Vec<Json>, Option<String>) {
    let plan = SyncFinalize { restacked: 0, skipped: 0, reconcile_native: true };
    let moved = vec!["feat/first".to_string(), "feat/second".to_string()];
    let mut work = Closing::begin(&stack_state(), plan, &moved, false, true);
    let mut seen = Vec::new();
    loop {
        let phase = work.phase();
        if phase == ClosingPhase::Finished || phase == ClosingPhase::Failed {
            let (receipts, error) = work.finish();
            return (seen, receipts, error);
        }
        if phase == ClosingPhase::Update {
            assert!(work.update().is_some());
        }
        seen.push(phase);
        work = work.step(if failing == Some(phase) {
            ClosingReply::Failed("no".to_string())
        } else {
            ClosingReply::Done
        });
    }
}

#[test]
fn sync_saves_then_repairs_bases_then_links() {
    let (seen, receipts, error) = close(None);
    assert_eq!(
        seen,
        vec![
            ClosingPhase::Save,
            ClosingPhase::ReturnOriginal,
            ClosingPhase::Prune,
            ClosingPhase::Update,
            ClosingPhase::Update,
            ClosingPhase::Link,
        ]
    );
    assert_eq!(receipts.len(), 2);
    assert_eq!(to_value(&receipts[0])["action"], "pr_base_updated");
    assert!(error.is_none());
    let (seen, _, error) = close(Some(ClosingPhase::Save));
    assert_eq!(seen, vec![ClosingPhase::Save]);
    assert_eq!(error.as_deref(), Some("no"));
    let (seen, receipts, error) = close(Some(ClosingPhase::Update));
    assert!(!seen.contains(&ClosingPhase::Link), "a wrong base keeps native stacks alone");
    assert_eq!(to_value(&receipts[1])["action"], "pr_base_update_error");
    assert_eq!(to_value(&receipts[2])["native_stack_reason"], "pr_base_update_failed");
    assert!(error.is_none());
}

#[test]
fn sync_small_decisions() {
    assert_eq!(return_plan(true, true), ReturnPlan::Stay);
    assert_eq!(return_plan(false, true), ReturnPlan::Original);
    assert_eq!(return_plan(false, false), ReturnPlan::Trunk);
    assert_eq!(native_follow_up(true, true), NativeFollowUp::Reconcile);
    assert_eq!(native_follow_up(false, true), NativeFollowUp::SkipStaleBases);
    assert_eq!(native_follow_up(true, false), NativeFollowUp::Nothing);
    assert!(to_value(&stale_bases_receipt())["native_stack_action"].is_string());
    assert!(!sync_summary(1, 2, 3).is_empty());
    let mut state = stack_state();
    assert!(matches!(
        pr_query(&state, &managed_order(&state)),
        PrQuery::ByName(names) if names == managed_order(&state)
    ));
    state.fork_repo = Some("me/p".to_string());
    match pr_query(&state, &managed_order(&state)) {
        PrQuery::ByNumber(q) => assert_eq!(q[0], ("feat/first".to_string(), 101)),
        PrQuery::ByName(_) => panic!("a fork goes by number"),
    }
}

#[test]
fn sync_preview_shows_checks_and_stale_branches() {
    let git = GitView {
        local: Vec::new(),
        tips: vec![
            ("main".to_string(), "m1".to_string()),
            ("feat/first".to_string(), "f0".to_string()),
        ],
        bases: Vec::new(),
        ancestors: Vec::new(),
    };
    let (checks, restacks) = preview(&stack_state(), &git, &first_worktree());
    assert_eq!(checks.len(), 2);
    assert!(matches!(
        &checks[0],
        PreviewItem::CheckPr { branch, worktree: Some(w) } if branch == "feat/first" && w == "/w/first"
    ));
    assert_eq!(restacks.len(), 1);
    assert!(matches!(
        &restacks[0],
        PreviewItem::Restack { branch, parent } if branch == "feat/first" && parent == "main"
    ));
}

#[test]
fn native_sync_links_each_chain() {
    let n = NativeSync::begin(&stack_state(), "sync", false);
    assert_eq!(n.next_chain().unwrap().pr_numbers, vec![101, 102]);
    let n = n.step(LinkReply::Linked(NativeStackOutcome::Unchanged { number: 3 }));
    assert!(n.next_chain().is_none());
    let (receipts, error) = n.finish();
    assert!(error.is_none());
    assert_eq!(to_value(&receipts[0])["native_stack_action"], "unchanged");
    let (_, error) = NativeSync::begin(&stack_state(), "sync", true)
        .step(LinkReply::Failed("busy".to_string()))
        .finish();
    assert_eq!(error.as_deref(), Some("busy"));
    let mut fork = stack_state();
    fork.fork_repo = Some("me/p".to_string());
    let n = NativeSync::begin(&fork, "sync", false);
    assert!(n.next_chain().is_none());
    assert_eq!(to_value(&n.finish().0[0])["native_stack_action"], "not_applicable");
}

#[test]
fn receipts_are_written_as_json() {
    let j = JsonObject::new()
        .field("text", Json::text("a \"quoted\" → text\n"))
        .field("list", Json::list(vec![Json::Null, Json::Bool(true), Json::Number(7)]))
        .field("empty", JsonObject::new().done())
        .done();
    assert_eq!(
        receipt_line(&j),
        "{\"empty\":{},\"list\":[null,true,7],\"text\":\"a \\\"quoted\\\" → text\\n\"}"
    );
    let value = to_value(&j);
    assert!(value["list"][0].is_null());
    assert_eq!(value["list"][1], true);
    assert_eq!(value["list"][2], 7);
    assert_eq!(value["text"], "a \"quoted\" → text\n");
    assert_eq!(value["empty"].as_object().unwrap().len(), 0);
    let twice = JsonObject::new().field("k", Json::Number(1)).field("k", Json::Number(2)).done();
    assert_eq!(receipt_line(&twice), "{\"k\":2}");
}

#[test]
fn stacks_know_their_shape() {
    let mut state = stack_state();
    state.add_branch("feat/third", "feat/second", "s0", None, None);
    assert_eq!(state.path_to_trunk("feat/third"), vec!["feat/third", "feat/second", "feat/first", "main"]);
    assert_eq!(state.stack_bottom("feat/third"), "feat/first");
    assert_eq!(state.stack_top("feat/first"), "feat/third");
    assert_eq!(state.descendants_topo("feat/first"), vec!["feat/second", "feat/third"]);
    assert_eq!(state.topo_order(), vec!["feat/first", "feat/second", "feat/third"]);
    assert_eq!(
        state.linear_stack("feat/second").unwrap(),
        vec!["feat/first", "feat/second", "feat/third"]
    );
    state.add_branch("feat/fork", "feat/first", "f0", None, None);
    assert!(state.linear_stack("feat/first").is_err());
    state.remove_branch("feat/fork");
    assert!(!state.is_managed("feat/fork"));
    assert!(matches!(state.get_branch("feat/fork"), Err(EzError::BranchNotInStack(_))));
}
