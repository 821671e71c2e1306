use ez_stack::branch_map::{BranchMeta, ScopeMode};
use ez_stack::cmd::create::{
    self, normalize_scope_patterns, resolve_create_parent, worktree_edit_hint, CreatePhase,
    CreateRequest, Creating,
};
use ez_stack::cmd::delete::{
    self, checked_out_elsewhere, delete_receipt, inside_worktree_delete_cancelled,
    inside_worktree_delete_warning, inside_worktree_path, record_delete, verify_delete_claim,
    worktree_fault, DeleteRoute,
};
use ez_stack::cmd::delete_worktree::{DeletePhase, Deletion};
use ez_stack::cmd::fold::{
    self, ensure_clean_worktree_fleet, ensure_fully_restacked, parent_moved, same_path,
    validate_fold_input, FoldValidationInput, WorktreeStatus,
};
use ez_stack::cmd::folding::{FoldPhase, FoldSnapshot, Folding, ParentMove};
use ez_stack::cmd::mutation_guard::StageMode;
use ez_stack::cmd::quarantine::{
    delete_claim, quarantine_name, Quarantine, QuarantinePhase, Restore, RestorePhase, Transfer, TransferReply,
};
use ez_stack::cmd::split::{
    self, dry_run_receipt, ensure_names_free, fork_point, noop_receipt, plan_split, record_split,
    split_parent, split_receipt, splittable, SplitFacts, SplitPhase, SplitReply, SplitStart,
};
use ez_stack::error::EzError;
use ez_stack::git::{GitView, Reply, WorktreeInfo};
use ez_stack::json::to_value;
use ez_stack::name_map::NameMap;
use ez_stack::stack::StackState;
use std::collections::BTreeMap;

#[test]
fn test_from_valid_targets() {
    let mut state = StackState::new("main".to_string());
    state.add_branch("feat/base", "main", "abc", None, None);
    assert!(state.is_trunk("main"));
    assert!(state.is_managed("feat/base"));
    assert!(!state.is_managed("random-branch"));
    assert!(!state.is_trunk("random-branch"));
    assert_eq!(resolve_create_parent(&state, "main", &None).unwrap(), "main");
    state.default_from = Some("feat/base".to_string());
    assert_eq!(resolve_create_parent(&state, "main", &None).unwrap(), "feat/base");
    state.default_from = Some("random-branch".to_string());
    assert_eq!(resolve_create_parent(&state, "main", &None).unwrap(), "main");
}

#[test]
fn normalize_scope_patterns_trims_dedupes_and_drops_empty_values() {
    assert_eq!(
        normalize_scope_patterns(&vec![
            " src/auth/** ".to_string(),
            "".to_string(),
            "src/auth/**".to_string(),
            "  ".to_string(),
            "tests/auth/**".to_string(),
        ]),
        Some(vec!["src/auth/**".to_string(), "tests/auth/**".to_string()])
    );
    assert_eq!(normalize_scope_patterns(&vec![" ".to_string()]), None);
}

#[test]
fn create_worktree_edit_hint_mentions_worktree_path_and_main_checkout() {
    let hint = worktree_edit_hint("/repo/.worktrees/feat-x");
    assert!(hint.contains("/repo/.worktrees/feat-x"));
    assert!(hint.contains("main repo checkout"));
}

fn request(name: &str, commit: bool, no_worktree: bool) -> CreateRequest {
    CreateRequest {
        name: name.to_string(),
        commit,
        stage: None,
        no_worktree,
        scope: None,
        scope_mode: None,
    }
}

/// What stands between a file and a commit.
#[derive(Clone, Copy, PartialEq)]
enum Pending {
    Staged,
    Unstaged,
    Untracked,
}

/// What the creation of a branch does to a repository.
struct Work {
    branches: Vec<String>,
    /// How many commits were made on each branch.
    commits: BTreeMap<String, usize>,
    /// The changes that are not committed: where, in which file, and how far.
    pending: Vec<(String, String, Pending)>,
    /// The files that the new commit holds.
    committed: Vec<String>,
    worktrees: Vec<String>,
    staged: bool,
    stashed: bool,
    committed_in: Option<String>,
    transferred: bool,
    saved: bool,
    fails_at: Option<CreatePhase>,
}

impl Work {
    fn new(branches: &[&str]) -> Work {
        Work {
            branches: branches.iter().map(|b| b.to_string()).collect(),
            commits: branches.iter().map(|b| (b.to_string(), 0)).collect(),
            pending: Vec::new(),
            committed: Vec::new(),
            worktrees: Vec::new(),
            staged: true,
            stashed: false,
            committed_in: None,
            transferred: false,
            saved: false,
            fails_at: None,
        }
    }

    /// Takes the changes from one place to another.
    fn carry(&mut self, from: &str, to: &str) {
        for entry in self.pending.iter_mut().filter(|e| e.0 == from) {
            entry.0 = to.to_string();
        }
    }

    fn holds(&self, place: &str, file: &str) -> bool {
        self.pending.iter().any(|e| e.0 == place && e.1 == file)
    }

    fn drive(&mut self, mut c: Creating, name: &str) -> Creating {
        loop {
            let phase = c.phase();
            if self.fails_at == Some(phase) {
                c = c.step(Reply::Failed("it failed".to_string()));
                continue;
            }
            let reply = match phase {
                CreatePhase::Head => Reply::Text(format!("{}-tip", c.parent())),
                CreatePhase::Stage | CreatePhase::StageMoved => Reply::Done,
                CreatePhase::CheckStaged | CreatePhase::CheckMoved => Reply::Flag(self.staged),
                CreatePhase::Path => {
                    Reply::Text(format!("/repo/.worktrees/{}", name.replace('/', "-")))
                }
                CreatePhase::Stash => {
                    self.stashed = true;
                    self.carry("/repo", "stash");
                    Reply::Flag(true)
                }
                CreatePhase::Create => {
                    self.branches.push(name.to_string());
                    let commits = self.commits.get(c.parent()).copied().unwrap_or(0);
                    self.commits.insert(name.to_string(), commits);
                    Reply::Done
                }
                CreatePhase::Unstash => {
                    self.stashed = false;
                    self.carry("stash", "/repo");
                    Reply::Done
                }
                CreatePhase::AddWorktree => {
                    self.worktrees.push(c.path().clone());
                    Reply::Done
                }
                CreatePhase::DropBranch | CreatePhase::DropUnsaved => {
                    self.branches.retain(|b| b != name);
                    Reply::Done
                }
                CreatePhase::Transfer => {
                    self.transferred = true;
                    self.carry("stash", c.path());
                    Reply::Done
                }
                CreatePhase::SaveAnyway | CreatePhase::Save => {
                    self.saved = true;
                    Reply::Done
                }
                CreatePhase::Commit => {
                    let path = c.path().clone();
                    let ready =
                        |e: &(String, String, Pending)| e.0 == path && e.2 == Pending::Staged;
                    self.committed.extend(
                        self.pending.iter().filter(|e| ready(e)).map(|e| e.1.clone()),
                    );
                    self.pending.retain(|e| !ready(e));
                    *self.commits.get_mut(name).expect("the branch is there") += 1;
                    self.committed_in = Some(path);
                    Reply::Done
                }
                CreatePhase::Finished | CreatePhase::Failed => return c,
            };
            c = c.step(reply);
        }
    }
}

#[test]
fn create_rejects_unmanaged_current_branch_without_from() {
    let state = StackState::new("main".to_string());
    let err = create::run(&state, "scratch", &None, false, request("feat/new", false, true))
        .expect_err("unmanaged current branch should fail");
    assert!(
        err.message().contains("current branch `scratch` is not tracked by ez"),
        "unexpected error: {}",
        err.message()
    );
}

#[test]
fn create_from_creates_worktree_by_default() {
    let state = StackState::new("main".to_string());
    let c = create::run(
        &state,
        "main",
        &Some("main".to_string()),
        false,
        request("feat/test", false, false),
    )
    .expect("create with --from should succeed");
    let mut work = Work::new(&["main"]);
    let done = work.drive(c, "feat/test");
    assert_eq!(done.phase(), CreatePhase::Finished);
    assert!(work.branches.contains(&"feat/test".to_string()));
    assert_eq!(work.worktrees, vec!["/repo/.worktrees/feat-test".to_string()]);
    assert!(work.saved);
    assert_eq!(done.state().get_branch("feat/test").expect("branch meta").parent, "main");
    let receipt = to_value(&done.receipt("main-tip"));
    assert_eq!(receipt["cmd"], "create");
    assert_eq!(receipt["branch"], "feat/test");
}

#[test]
fn create_from_no_worktree_skips_worktree() {
    let state = StackState::new("main".to_string());
    let c = create::run(
        &state,
        "main",
        &Some("main".to_string()),
        false,
        request("feat/test", false, true),
    )
    .unwrap();
    let mut work = Work::new(&["main"]);
    work.drive(c, "feat/test");
    assert!(work.branches.contains(&"feat/test".to_string()));
    assert!(work.worktrees.is_empty());
}

#[test]
fn create_no_worktree_without_from_does_not_switch_branch() {
    let state = StackState::new("main".to_string());
    let c = create::run(&state, "main", &None, false, request("feat/test", false, true)).unwrap();
    let mut work = Work::new(&["main"]);
    let done = work.drive(c, "feat/test");
    assert_eq!(done.phase(), CreatePhase::Finished);
    assert!(work.branches.contains(&"feat/test".to_string()));
    assert!(!work.stashed);
    assert!(work.committed_in.is_none());
}

#[test]
fn create_from_managed_parent_stacks_correctly() {
    let mut state = StackState::new("main".to_string());
    state.add_branch("feat/base", "main", "main-tip", None, None);
    let c = create::run(
        &state,
        "main",
        &Some("feat/base".to_string()),
        false,
        request("feat/child", false, true),
    )
    .expect("create from managed parent should succeed");
    let mut work = Work::new(&["main", "feat/base"]);
    let done = work.drive(c, "feat/child");
    let meta = done.state().get_branch("feat/child").expect("child meta");
    assert_eq!(meta.parent, "feat/base");
    assert_eq!(meta.parent_head, "feat/base-tip");
}

#[test]
fn create_rejects_duplicate_branch_with_from() {
    let state = StackState::new("main".to_string());
    let err = create::run(
        &state,
        "main",
        &Some("main".to_string()),
        true,
        request("feat/test", false, true),
    )
    .expect_err("duplicate should fail");
    assert!(matches!(&err, EzError::BranchAlreadyExists(b) if b == "feat/test"));
    assert!(err.message().contains("already exists"), "unexpected error: {}", err.message());
}

#[test]
fn create_rejects_unmanaged_from_branch() {
    let state = StackState::new("main".to_string());
    let err = create::run(
        &state,
        "main",
        &Some("scratch".to_string()),
        false,
        request("feat/new", false, true),
    )
    .expect_err("unmanaged --from branch should fail");
    assert!(
        err.message().contains("branch `scratch` is not tracked by ez"),
        "unexpected error: {}",
        err.message()
    );
}

fn managed_parent() -> StackState {
    let mut state = StackState::new("main".to_string());
    state.add_branch("feat/parent", "main", "main-tip", None, None);
    state
}

#[test]
fn create_with_message_does_not_advance_parent_branch() {
    let c = create::run(
        &managed_parent(),
        "feat/parent",
        &None,
        false,
        request("feat/child", true, false),
    )
    .expect("create with -m should succeed");
    let mut work = Work::new(&["main", "feat/parent"]);
    let done = work.drive(c, "feat/child");
    assert_eq!(work.committed_in.as_deref(), Some("/repo/.worktrees/feat-child"));
    assert_eq!(work.commits["feat/parent"], 0, "parent branch must not advance");
    assert_ne!(
        work.commits["feat/child"], work.commits["feat/parent"],
        "child branch must carry the new commit"
    );
    let child_meta = done.state().get_branch("feat/child").expect("child meta");
    assert_eq!(child_meta.parent, "feat/parent");
    assert_eq!(child_meta.parent_head, "feat/parent-tip");
}

#[test]
fn create_with_message_lands_commit_in_new_worktree() {
    let mut r = request("feat/child", true, false);
    r.stage = Some(StageMode::All);
    let c = create::run(&managed_parent(), "feat/parent", &None, false, r).unwrap();
    let mut work = Work::new(&["main", "feat/parent"]);
    let done = work.drive(c, "feat/child");
    assert_eq!(done.phase(), CreatePhase::Finished);
    assert_eq!(work.committed_in.as_deref(), Some("/repo/.worktrees/feat-child"));
}

#[test]
fn create_with_message_transfers_unstaged_changes_to_new_worktree() {
    let c = create::run(
        &managed_parent(),
        "feat/parent",
        &None,
        false,
        request("feat/child", true, false),
    )
    .unwrap();
    let mut work = Work::new(&["main", "feat/parent"]);
    for (file, how) in [
        ("staged.txt", Pending::Staged),
        ("tracked.txt", Pending::Unstaged),
        ("untracked.txt", Pending::Untracked),
    ] {
        work.pending.push(("/repo".to_string(), file.to_string(), how));
    }
    let done = work.drive(c, "feat/child");
    assert!(work.stashed);
    assert!(work.transferred);
    assert_eq!(work.committed, vec!["staged.txt".to_string()]);
    let there = done.path().clone();
    assert!(work.holds(&there, "tracked.txt"));
    assert!(
        !work.holds("/repo", "tracked.txt"),
        "parent worktree should be restored to its pre-create content"
    );
    assert!(work.holds(&there, "untracked.txt"));
    assert!(
        !work.holds("/repo", "untracked.txt"),
        "untracked.txt should not remain in the parent worktree"
    );
}

#[test]
fn create_with_message_rejects_no_worktree() {
    let c = create::run(
        &managed_parent(),
        "feat/parent",
        &None,
        false,
        request("feat/child", true, true),
    )
    .unwrap();
    let mut work = Work::new(&["main", "feat/parent"]);
    let failed = work.drive(c, "feat/child");
    let err = failed.error().expect("-m with --no-worktree should be rejected");
    assert!(err.message().contains("`-m` cannot be combined"));
    assert!(!work.branches.contains(&"feat/child".to_string()));
}

#[test]
fn create_takes_back_what_it_did_when_a_step_fails() {
    let start = || {
        create::run(
            &managed_parent(),
            "feat/parent",
            &None,
            false,
            request("feat/child", true, false),
        )
        .unwrap()
    };
    for phase in [CreatePhase::Create, CreatePhase::AddWorktree] {
        let mut work = Work::new(&["main", "feat/parent"]);
        work.fails_at = Some(phase);
        let failed = work.drive(start(), "feat/child");
        assert_eq!(failed.phase(), CreatePhase::Failed);
        assert_eq!(failed.error().unwrap().message(), "it failed");
        assert!(!work.stashed, "the changes are taken back");
        assert!(!work.branches.contains(&"feat/child".to_string()));
        assert!(!failed.state().is_managed("feat/child"));
    }
    let mut work = Work::new(&["main", "feat/parent"]);
    work.staged = false;
    let failed = work.drive(start(), "feat/child");
    assert!(matches!(failed.error(), Some(EzError::NothingToCommit)));
}

#[test]
fn create_records_a_scope_with_its_mode() {
    let mut r = request("feat/child", false, true);
    r.scope = normalize_scope_patterns(&vec!["src/**".to_string()]);
    let c = create::run(&managed_parent(), "feat/parent", &None, false, r).unwrap();
    let done = Work::new(&["main"]).drive(c, "feat/child");
    let meta = done.state().get_branch("feat/child").unwrap();
    assert_eq!(meta.scope, Some(vec!["src/**".to_string()]));
    assert_eq!(meta.scope_mode, Some(ScopeMode::Warn));
}

#[test]
fn inside_worktree_path_matches_exact_and_nested() {
    assert!(inside_worktree_path("/repo/.worktrees/feat", "/repo/.worktrees/feat"));
    assert!(inside_worktree_path("/repo/.worktrees/feat/src/app", "/repo/.worktrees/feat"));
    assert!(!inside_worktree_path("/repo/.worktrees/feat-two", "/repo/.worktrees/feat"));
}

#[test]
fn inside_worktree_delete_warning_mentions_yes_flag() {
    let warning = inside_worktree_delete_warning("feat/auth");
    assert!(warning.contains("feat/auth"));
    assert!(warning.contains("--yes"));
}

#[test]
fn inside_worktree_delete_cancelled_mentions_worktree_delete_yes_command() {
    let warning = inside_worktree_delete_cancelled("feat/auth");
    assert!(warning.contains("ez worktree delete feat/auth --yes"));
}

fn transfer(branch: &str) -> Transfer {
    Transfer {
        original: "/w/original".to_string(),
        quarantine: "/w/quarantine".to_string(),
        branch: branch.to_string(),
        claim: "claim".to_string(),
    }
}

fn listed(path: &str, branch: Option<&str>, lock: Option<&str>) -> WorktreeInfo {
    WorktreeInfo {
        path: path.to_string(),
        branch: branch.map(|b| b.to_string()),
        locked_reason: lock.map(|l| l.to_string()),
    }
}

#[test]
fn restore_quarantined_worktree_rejects_missing_quarantine_path() {
    let restore = Restore::begin(transfer("feat/missing"));
    assert_eq!(restore.phase, RestorePhase::LookAside);
    let restore = restore.step(TransferReply::Flag(false));
    assert_eq!(restore.phase, RestorePhase::Failed);
    assert!(restore.text.contains("no longer exists"));
}

fn looked() -> Restore {
    let restore = Restore::begin(transfer("feat/expected"))
        .step(TransferReply::Flag(true))
        .step(TransferReply::Flag(false));
    assert_eq!(restore.phase, RestorePhase::List);
    restore
}

#[test]
fn restore_quarantined_worktree_rejects_unregistered_quarantine_path() {
    let restore = looked().step(TransferReply::Listed(Vec::new()));
    assert_eq!(restore.phase, RestorePhase::Failed);
    assert!(restore.text.contains("is no longer registered"));
}

#[test]
fn restore_quarantined_worktree_rejects_changed_branch_ownership() {
    let restore = looked().step(TransferReply::Listed(vec![listed(
        "/w/quarantine",
        Some("feat/actual"),
        Some("claim"),
    )]));
    assert_eq!(restore.phase, RestorePhase::Failed);
    assert!(restore.text.contains("ownership changed"));
    assert!(restore.text.contains("feat/actual"));
}

#[test]
fn restore_moves_the_worktree_back_after_its_checks() {
    let mut restore = looked().step(TransferReply::Listed(vec![listed(
        "/w/quarantine",
        Some("feat/expected"),
        None,
    )]));
    let mut seen = Vec::new();
    while restore.phase != RestorePhase::Finished && restore.phase != RestorePhase::Failed {
        seen.push(restore.phase);
        restore = restore.step(TransferReply::Done);
    }
    assert_eq!(restore.phase, RestorePhase::Finished);
    assert_eq!(
        seen,
        vec![
            RestorePhase::Lock,
            RestorePhase::VerifyAside,
            RestorePhase::Rename,
            RestorePhase::Repair,
            RestorePhase::VerifyBack,
            RestorePhase::Unlock,
        ]
    );
}

#[test]
fn verify_delete_claim_rejects_unregistered_path() {
    let error = verify_delete_claim(&Vec::new(), "/w/missing-worktree", "feat/missing", "claim")
        .expect_err("unregistered path should fail claim verification");
    assert!(error.message().contains("path is no longer registered"));
}

#[test]
fn verify_delete_claim_needs_the_branch_and_the_lock() {
    let held = vec![listed("/w/a", Some("feat/a"), Some("claim"))];
    verify_delete_claim(&held, "/w/a", "feat/a", "claim").expect("claimed");
    let other = vec![listed("/w/a", None, None)];
    let error = verify_delete_claim(&other, "/w/a", "feat/a", "claim").expect_err("changed");
    assert!(error.message().contains("<detached HEAD>"));
    assert!(error.message().contains("<unlocked>"));
}

#[test]
fn quarantine_claimed_worktree_reports_rename_failure() {
    let q = Quarantine::begin(transfer("feat/missing"))
        .step(TransferReply::Failed("No such file or directory".to_string()));
    assert_eq!(q.phase, QuarantinePhase::Failed);
    assert!(q.text.contains("Could not quarantine"));
    assert!(q.text.contains("feat/missing"));
}

#[test]
fn quarantine_claimed_worktree_restores_original_when_repair_fails() {
    let mut place = "original";
    let q = Quarantine::begin(transfer("feat/repair"));
    assert_eq!(q.phase, QuarantinePhase::Rename);
    place = if place == "original" { "quarantine" } else { place };
    let q = q.step(TransferReply::Done);
    assert_eq!(q.phase, QuarantinePhase::Repair);
    let q = q.step(TransferReply::Failed("simulated repair failure".to_string()));
    assert_eq!(q.phase, QuarantinePhase::UndoRename);
    place = if place == "quarantine" { "original" } else { place };
    let q = q.step(TransferReply::Done).step(TransferReply::Done);
    assert_eq!(q.phase, QuarantinePhase::Failed);
    assert!(q.text.contains("Could not repair quarantined"));
    assert_eq!(place, "original");
}

#[test]
fn quarantine_names_tell_attempts_apart() {
    assert_eq!(delete_claim(12, "feat/a"), "ez-delete:12:feat/a");
    assert_eq!(quarantine_name("/w/feat-a", 12, "99"), ".ez-delete-12-99-feat-a");
    assert_eq!(quarantine_name("/w/feat-a/..", 12, "99"), ".ez-delete-12-99-worktree");
    assert_eq!(quarantine_name("/", 12, "99"), ".ez-delete-12-99-worktree");
}

fn delete_stack() -> StackState {
    let mut state = StackState::new("main".to_string());
    state.add_branch("feat/a", "main", "m0", None, None);
    state.add_branch("feat/b", "feat/a", "a0", None, None);
    state.set_pr_number("feat/a", Some(1)).unwrap();
    state.set_pr_number("feat/b", Some(2)).unwrap();
    state
}

#[test]
fn delete_chooses_its_route() {
    let state = delete_stack();
    let none = vec![listed("/repo", Some("main"), None)];
    assert!(delete::run(&state, "feat/a", &Vec::new()).is_err());
    assert!(matches!(delete::run(&state, "main", &none), Err(EzError::OnTrunk)));
    assert!(matches!(delete::run(&state, "x", &none), Err(EzError::BranchNotInStack(_))));
    assert!(matches!(delete::run(&state, "feat/a", &none), Ok(DeleteRoute::BranchOnly)));
    let there = vec![
        listed("/repo", Some("main"), None),
        listed("/w/a", Some("feat/a"), Some("busy")),
    ];
    assert!(matches!(
        delete::run(&state, "feat/a", &there),
        Ok(DeleteRoute::WithWorktree { path, locked_reason: Some(l) })
            if path == "/w/a" && l == "busy"
    ));
    assert!(worktree_fault("/w/a", true, true).is_none());
    assert!(worktree_fault("/w/a", false, false).is_some());
    assert!(worktree_fault("/w/a", true, false).is_some());
    assert!(checked_out_elsewhere("feat/a", "/w/a").message().contains("/w/a"));
}

#[test]
fn delete_reparents_children_and_their_pull_requests() {
    let mut state = delete_stack();
    let (kids, updates) = record_delete(&mut state, "feat/a").unwrap();
    assert_eq!(kids, vec!["feat/b".to_string()]);
    assert_eq!(updates.len(), 1);
    assert_eq!((updates[0].pr_number, updates[0].base.as_str()), (2, "main"));
    let meta = state.get_branch("feat/b").unwrap();
    assert_eq!((meta.parent.as_str(), meta.parent_head.as_str()), ("main", "a0"));
    assert!(!state.is_managed("feat/a"));
    assert_eq!(to_value(&delete_receipt("feat/a", "main", 1))["reparented_children"], 1);
}

fn run_deletion(mut d: Deletion, failing: Option<DeletePhase>) -> (Deletion, Vec<DeletePhase>) {
    let mut seen = Vec::new();
    loop {
        let phase = d.phase();
        if phase == DeletePhase::Finished || phase == DeletePhase::Failed {
            return (d, seen);
        }
        seen.push(phase);
        let reply = if failing == Some(phase) {
            Reply::Failed("it failed".to_string())
        } else {
            match phase {
                DeletePhase::Path => Reply::Text("/w/.gone-1".to_string()),
                DeletePhase::Look => Reply::Flag(true),
                DeletePhase::Stop => Reply::Numbers(vec![77]),
                _ => Reply::Done,
            }
        };
        d = d.step(reply);
    }
}

#[test]
fn delete_removes_the_worktree_before_the_branch_and_the_record() {
    let start = || {
        Deletion::begin(
            &delete_stack(),
            "feat/a",
            Some("/w/a".to_string()),
            false,
            "claim",
            14000,
        )
        .unwrap()
    };
    let (done, seen) = run_deletion(start(), None);
    assert_eq!(done.phase(), DeletePhase::Finished);
    let at = |p: DeletePhase| seen.iter().position(|x| *x == p).unwrap();
    assert!(at(DeletePhase::Quarantine) < at(DeletePhase::Remove));
    assert!(at(DeletePhase::Remove) < at(DeletePhase::DeleteBranch));
    assert!(at(DeletePhase::DeleteBranch) < at(DeletePhase::Stop));
    assert!(at(DeletePhase::Stop) < at(DeletePhase::Save));
    assert!(!done.state().is_managed("feat/a"));
    assert_eq!(done.quarantine(), "/w/.gone-1");
    assert_eq!(to_value(&done.receipt())["branch"], "feat/a");

    for phase in [
        DeletePhase::Claim,
        DeletePhase::Quarantine,
        DeletePhase::Unlock,
        DeletePhase::Remove,
        DeletePhase::DeleteBranch,
    ] {
        let (failed, seen) = run_deletion(start(), Some(phase));
        assert_eq!(failed.phase(), DeletePhase::Failed);
        assert!(failed.state().is_managed("feat/a"), "the record stays");
        assert!(!seen.contains(&DeletePhase::Stop), "no process is stopped");
    }
    let (failed, seen) = run_deletion(start(), Some(DeletePhase::DeleteBranch));
    assert!(seen.contains(&DeletePhase::Readd), "the worktree is made again");
    assert!(failed.error().unwrap().message().contains("Restored the worktree at `/w/a`"));
}

#[test]
fn delete_without_worktree_leaves_the_branch_first() {
    let start = || {
        Deletion::begin(&delete_stack(), "feat/a", None, true, "claim", 14000).unwrap()
    };
    let (done, seen) = run_deletion(start(), None);
    assert_eq!(done.phase(), DeletePhase::Finished);
    assert_eq!(seen[0], DeletePhase::Checkout);
    assert_eq!(seen[1], DeletePhase::DeleteLocal);
    let (failed, seen) = run_deletion(start(), Some(DeletePhase::DeleteLocal));
    assert!(seen.contains(&DeletePhase::CheckoutBack));
    assert!(failed.state().is_managed("feat/a"));
}

fn fold_input(parent: &str, pr: Option<u64>, ancestor: bool) -> FoldValidationInput {
    FoldValidationInput {
        target: "feat/child".to_string(),
        parent: parent.to_string(),
        trunk: "main".to_string(),
        pr_number: pr,
        parent_is_ancestor: ancestor,
    }
}

#[test]
fn fold_validation_rejects_pr_backed_and_bottom_layers() {
    assert!(validate_fold_input(&fold_input("feat/base", Some(42), true)).is_err());
    let mut bottom = fold_input("main", None, true);
    bottom.target = "feat/base".to_string();
    assert!(validate_fold_input(&bottom).is_err());
    assert!(validate_fold_input(&fold_input("feat/base", None, true)).is_ok());
}

#[test]
fn fold_validation_requires_linear_history() {
    assert!(validate_fold_input(&fold_input("feat/base", None, false)).is_err());
}

/// A stack of base, target and child, with the commits and worktrees of each.
struct FoldRepo {
    state: StackState,
    base_sha: String,
    target_branch: bool,
    target_worktree: bool,
    parent_at: String,
    /// The parent's worktree.
    home: Option<String>,
    /// What the parent's worktree holds in `base.txt`, where that is not committed.
    edit: Option<String>,
    /// The edit that arrives while the stack is being saved.
    arriving: Option<String>,
    /// The commit that the parent's worktree moves to while the stack is being saved.
    moving: Option<String>,
    cwd: String,
    saved: bool,
    save_fails: bool,
}

impl FoldRepo {
    fn new() -> FoldRepo {
        let mut state = StackState::new("main".to_string());
        state.add_branch("feat/base", "main", "main-sha", None, None);
        state.add_branch("feat/target", "feat/base", "base-sha", None, None);
        state.add_branch("feat/child", "feat/target", "target-sha", None, None);
        FoldRepo {
            state,
            base_sha: "base-sha".to_string(),
            target_branch: true,
            target_worktree: true,
            parent_at: "base-sha".to_string(),
            home: None,
            edit: None,
            arriving: None,
            moving: None,
            cwd: "/repo".to_string(),
            saved: false,
            save_fails: false,
        }
    }

    fn git(&self) -> GitView {
        let tips = [
            ("main", "main-sha"),
            ("feat/base", "base-sha"),
            ("feat/target", "target-sha"),
            ("feat/child", "child-sha"),
        ];
        let line = ["main", "feat/base", "feat/target", "feat/child"];
        let mut ancestors = Vec::new();
        for i in 0..line.len() {
            for j in i..line.len() {
                ancestors.push((line[i].to_string(), line[j].to_string()));
                ancestors.push((tips[i].1.to_string(), line[j].to_string()));
            }
        }
        GitView {
            local: line.iter().map(|b| b.to_string()).collect(),
            tips: tips.iter().map(|(b, t)| (b.to_string(), t.to_string())).collect(),
            bases: Vec::new(),
            ancestors,
        }
    }

    fn fleet(&self, dirty: bool) -> NameMap<WorktreeStatus> {
        let mut fleet = NameMap::new();
        for b in ["feat/base", "feat/target", "feat/child"] {
            fleet.insert(
                b.to_string(),
                WorktreeStatus {
                    path: format!("/w/{b}"),
                    staged: 0,
                    modified: 0,
                    untracked: if dirty && b == "feat/target" { 1 } else { 0 },
                },
            );
        }
        fleet
    }

    fn snapshot(&self, parent_worktree: Option<&str>) -> FoldSnapshot {
        FoldSnapshot {
            target: "feat/target".to_string(),
            target_sha: "target-sha".to_string(),
            target_worktree: if self.target_worktree {
                Some("/w/feat/target".to_string())
            } else {
                None
            },
            parent: "feat/base".to_string(),
            parent_sha: "base-sha".to_string(),
            parent_worktree: parent_worktree.map(|w| w.to_string()),
        }
    }

    fn drive(&mut self, mut f: Folding) -> Folding {
        loop {
            let reply = match f.phase() {
                FoldPhase::MoveOut => {
                    self.cwd = f.destination();
                    Reply::Done
                }
                FoldPhase::Advance | FoldPhase::RestoreParent => {
                    self.move_parent(f.parent_move().expect("a move"));
                    Reply::Done
                }
                FoldPhase::RemoveWorktree => {
                    assert_ne!(self.cwd, "/w/feat/target", "the process is out of it by now");
                    self.target_worktree = false;
                    Reply::Done
                }
                FoldPhase::DeleteBranch => {
                    self.target_branch = false;
                    Reply::Done
                }
                FoldPhase::Save => {
                    if self.save_fails {
                        self.edit = self.arriving.take();
                        if let Some(commit) = self.moving.take() {
                            self.parent_at = commit;
                        }
                        Reply::Failed("injected state save failure".to_string())
                    } else {
                        self.saved = true;
                        Reply::Done
                    }
                }
                FoldPhase::LookBranch => Reply::Flag(self.target_branch),
                FoldPhase::CreateBranch => {
                    self.target_branch = true;
                    Reply::Done
                }
                FoldPhase::LookWorktree => {
                    Reply::Flag(self.target_branch && !self.target_worktree)
                }
                FoldPhase::AddWorktree => {
                    self.target_worktree = true;
                    Reply::Done
                }
                FoldPhase::LookParent => Reply::Text(self.parent_at.clone()),
                FoldPhase::RestoreState => Reply::Done,
                FoldPhase::Finished | FoldPhase::Failed => return f,
            };
            f = f.step(reply);
        }
    }

    /// Moves the parent as git would: only a plain reset throws away what is not committed.
    fn move_parent(&mut self, how: ParentMove) {
        match how {
            ParentMove::FastForward { worktree, to } => {
                assert_eq!(worktree, self.parent_worktree());
                self.parent_at = to;
            }
            ParentMove::ResetKeep { worktree, to } => {
                assert_eq!(worktree, self.parent_worktree());
                self.parent_at = to;
            }
            ParentMove::Swap { branch, to, expected } => {
                assert_eq!(branch, "feat/base");
                assert_eq!(self.parent_at, expected);
                self.parent_at = to;
            }
        }
    }

    fn parent_worktree(&self) -> String {
        self.home.clone().expect("the parent has a worktree")
    }

    fn fold(&mut self, parent_worktree: Option<&str>, inside: bool) -> Folding {
        let parent =
            fold::run(&self.state, &self.git(), "feat/target", false, &self.fleet(false))
                .expect("may be folded");
        assert_eq!(parent, "feat/base");
        self.home = parent_worktree.map(|w| w.to_string());
        if inside {
            self.cwd = "/w/feat/target".to_string();
        }
        let f = Folding::begin(&self.state, self.snapshot(parent_worktree), "/repo", inside);
        self.drive(f)
    }
}

#[test]
fn folds_middle_worktree_without_rewriting_child() {
    let mut repo = FoldRepo::new();
    let done = repo.fold(Some("/w/feat/base"), false);
    assert_eq!(done.phase(), FoldPhase::Finished);
    assert_eq!(repo.parent_at, "target-sha");
    assert!(!repo.target_branch);
    assert!(!repo.target_worktree);
    assert!(!done.state().is_managed("feat/target"));
    let child = done.state().get_branch("feat/child").expect("child metadata");
    assert_eq!(child.parent, "feat/base");
    assert_eq!(child.parent_head, "target-sha");
    assert_eq!(done.kids(), &vec!["feat/child".to_string()]);
    assert_eq!(to_value(&done.receipt(1))["cmd"], "fold");
}

#[test]
fn folds_when_parent_has_no_worktree() {
    let mut repo = FoldRepo::new();
    let done = repo.fold(None, false);
    assert_eq!(done.phase(), FoldPhase::Finished);
    assert_eq!(repo.parent_at, "target-sha");
    assert!(!repo.target_branch);
    assert!(!repo.target_worktree);
}

#[test]
fn folds_target_without_a_linked_worktree() {
    let mut repo = FoldRepo::new();
    repo.target_worktree = false;
    let done = repo.fold(Some("/w/feat/base"), false);
    assert_eq!(repo.parent_at, "target-sha");
    assert!(!repo.target_branch);
    assert!(!done.state().is_managed("feat/target"));
}

#[test]
fn folds_into_parent_checked_out_in_main_worktree() {
    let mut repo = FoldRepo::new();
    let done = repo.fold(Some("/repo"), true);
    assert_eq!(done.phase(), FoldPhase::Finished);
    assert_eq!(repo.cwd, "/repo", "the process ends in the main worktree");
    assert_eq!(done.entered().map(String::as_str), Some("/repo"));
    assert_eq!(repo.parent_at, "target-sha");
    assert_eq!(to_value(&done.receipt(1))["into"], "feat/base");
    assert!(!repo.target_worktree);
    assert!(!repo.target_branch);
}

#[test]
fn folding_current_linked_worktree_moves_process_to_parent_worktree() {
    let mut repo = FoldRepo::new();
    let done = repo.fold(Some("/w/feat/base"), true);
    assert_eq!(done.phase(), FoldPhase::Finished);
    assert_eq!(repo.cwd, "/w/feat/base");
    assert_eq!(done.entered().map(String::as_str), Some("/w/feat/base"));
    assert!(!repo.target_worktree);
    assert_eq!(repo.parent_at, "target-sha");
}

#[test]
fn folding_inside_goes_to_the_main_worktree_without_a_parent_worktree() {
    let mut repo = FoldRepo::new();
    let done = repo.fold(None, true);
    assert_eq!(done.phase(), FoldPhase::Finished);
    assert_eq!(repo.cwd, "/repo");
    let mut repo = FoldRepo::new();
    assert!(repo.fold(None, false).entered().is_none());
}

#[test]
fn dirty_worktree_aborts_without_mutation() {
    let repo = FoldRepo::new();
    let error = fold::run(&repo.state, &repo.git(), "feat/target", false, &repo.fleet(true))
        .expect_err("dirty fold must fail");
    assert!(error.message().contains("worktree fleet is dirty"));
    assert_eq!(repo.parent_at, repo.base_sha);
    assert!(repo.target_branch);
    assert!(ensure_clean_worktree_fleet(
        "feat/target",
        "feat/base",
        &vec!["feat/child".to_string()],
        &repo.fleet(true)
    )
    .is_err());
}

#[test]
fn stale_descendant_aborts_without_mutation() {
    let mut repo = FoldRepo::new();
    repo.state.set_parent("feat/child", "feat/target", "base-sha").expect("child");
    let error = fold::run(&repo.state, &repo.git(), "feat/target", false, &repo.fleet(false))
        .expect_err("stale child must fail");
    assert!(error.message().contains("not fully restacked"));
    assert_eq!(repo.parent_at, repo.base_sha);
    assert!(repo.target_branch);
    assert!(repo.target_worktree);
    assert!(ensure_fully_restacked(&repo.state, &repo.git(), &vec!["feat/child".to_string()])
        .is_err());
}

#[test]
fn pr_backed_target_aborts_without_mutation() {
    let mut repo = FoldRepo::new();
    repo.state.set_pr_number("feat/target", Some(42)).expect("target");
    let error = fold::run(&repo.state, &repo.git(), "feat/target", false, &repo.fleet(false))
        .expect_err("PR-backed fold must fail");
    assert!(error.message().contains("PR-less"));
    assert_eq!(repo.parent_at, repo.base_sha);
    assert!(repo.target_branch);
}

#[test]
fn save_failure_rolls_back_refs_worktree_and_state() {
    let mut repo = FoldRepo::new();
    repo.save_fails = true;
    let failed = repo.fold(Some("/w/feat/base"), false);
    assert_eq!(failed.phase(), FoldPhase::Failed);
    assert!(failed.error().expect("save failure must abort").message().contains("rolled back"));
    assert_eq!(repo.parent_at, repo.base_sha);
    assert!(repo.target_branch);
    assert!(repo.target_worktree);
    assert!(failed.state().is_managed("feat/target"));
    assert_eq!(failed.state().get_branch("feat/child").unwrap().parent, "feat/target");
    assert!(!repo.saved);
}

#[test]
fn rollback_preserves_edit_that_arrives_in_parent_worktree() {
    let mut repo = FoldRepo::new();
    repo.save_fails = true;
    repo.arriving = Some("concurrent edit\n".to_string());
    let failed = repo.fold(Some("/w/feat/base"), false);
    assert!(failed.error().unwrap().message().contains("rolled back"));
    assert_eq!(repo.parent_at, repo.base_sha);
    assert_eq!(repo.edit.as_deref(), Some("concurrent edit\n"), "the edit is still there");
    assert!(repo.target_branch);
    assert!(repo.target_worktree);
}

#[test]
fn rollback_leaves_a_parent_worktree_that_moved_on() {
    let mut repo = FoldRepo::new();
    repo.save_fails = true;
    repo.moving = Some("other-sha".to_string());
    let failed = repo.fold(Some("/w/feat/base"), false);
    let text = failed.error().unwrap().message();
    assert!(text.contains("Fold rollback was incomplete"), "{text}");
    assert!(text.contains(
        "parent worktree `/w/feat/base` moved to other-sha; expected folded tip target-sha"
    ));
    assert_eq!(repo.parent_at, "other-sha");
    assert!(repo.target_branch);
    assert_eq!(parent_moved("/w/feat/base", "target-sha", "target-sha"), None);
}

#[test]
fn target_in_main_worktree_is_rejected() {
    let repo = FoldRepo::new();
    let error = fold::run(&repo.state, &repo.git(), "feat/target", true, &repo.fleet(false))
        .expect_err("main worktree target must fail");
    assert!(error.message().contains("main worktree"));
    assert!(same_path("/w/a", "/w/a"));
    assert!(!same_path("/w/a", "/w/b"));
}

#[test]
fn multiple_children_reparent_without_changing_bases() {
    let mut state = StackState::new("main".to_string());
    for name in ["feat/a", "feat/b"] {
        state.branches.insert(BranchMeta {
            name: name.to_string(),
            parent: "feat/target".to_string(),
            parent_head: "target-sha".to_string(),
            pr_number: None,
            scope: None,
            scope_mode: None,
        });
    }

    let children = state.reparent_children_preserving_parent_head("feat/target", "feat/base");
    assert_eq!(children, vec!["feat/a", "feat/b"]);
    for child in children {
        let meta = state.get_branch(&child).expect("child metadata");
        assert_eq!(meta.parent, "feat/base");
        assert_eq!(meta.parent_head, "target-sha");
    }
}

fn commits() -> Vec<(String, String)> {
    vec![
        ("aaa1111".to_string(), "first".to_string()),
        ("bbb2222".to_string(), "second".to_string()),
        ("ccc3333".to_string(), "third".to_string()),
    ]
}

/// Splits a branch of three commits, of which so many are merges.
fn split_auth(local: &mut Vec<String>, state: &mut StackState, merges: u64) -> Result<(), EzError> {
    match split::run(state, "feat/auth", None, false, facts(local, 3, merges))? {
        SplitStart::Go(mut work) => {
            while work.phase() != SplitPhase::Finished {
                match work.phase() {
                    SplitPhase::Create => local.push(work.layer().name.clone()),
                    SplitPhase::Save => *state = work.state().copy(),
                    _ => return Err(work.finish().unwrap_err()),
                }
                work = work.step(SplitReply::Done);
            }
            let receipt = to_value(&work.finish()?);
            assert_eq!(receipt["created"], 2);
            Ok(())
        }
        other => panic!("unexpected {other:?}"),
    }
}

fn facts(local: &[String], commits: usize, merges: u64) -> SplitFacts {
    SplitFacts {
        merge_base: Some("base000\n".to_string()),
        commits: self::commits().into_iter().take(commits).collect(),
        merges,
        local: local.to_vec(),
    }
}

fn tracked_state() -> StackState {
    let mut state = StackState::new("main".to_string());
    state.add_branch("feat/auth", "main", "base000", None, None);
    state
}

#[test]
fn split_builds_one_layer_per_commit_without_moving_any_of_them() {
    let mut state = tracked_state();
    assert_eq!(split_parent(&state, "feat/auth").expect("parent"), "main");
    let base = fork_point(&state, "feat/auth", Some("base000\n".to_string())).unwrap();
    assert_eq!(base, "base000");
    assert!(splittable("feat/auth", "main", 3, 0).expect("three commits"));
    let layers = plan_split("feat/auth", "feat/auth", "main", &base, &commits());
    ensure_names_free(&layers, &vec!["main".to_string(), "feat/auth".to_string()])
        .expect("names are free");
    record_split(&mut state, &layers);

    assert_eq!(layers[0].sha, "aaa1111");
    assert_eq!(layers[1].sha, "bbb2222");
    assert_eq!(layers[2].sha, "ccc3333", "the original branch tip must not move");
    assert_eq!(state.get_branch("feat/auth-1").expect("p1").parent, "main");
    assert_eq!(state.get_branch("feat/auth-2").expect("p2").parent, "feat/auth-1");
    assert_eq!(state.get_branch("feat/auth").expect("top").parent, "feat/auth-2");
    assert_eq!(state.get_branch("feat/auth").expect("top").parent_head, "bbb2222");
    assert_eq!(state.path_to_trunk("feat/auth").len(), 4);
    assert_eq!(to_value(&split_receipt("feat/auth", "main", &layers))["cmd"], "split");
}

#[test]
fn split_refuses_before_creating_anything_when_a_name_is_taken() {
    let mut state = tracked_state();
    let mut local =
        vec!["main".to_string(), "feat/auth".to_string(), "feat/auth-2".to_string()];
    let error = split_auth(&mut local, &mut state, 0).expect_err("split must refuse");
    assert!(error.message().contains("feat/auth-2"), "the error names the collision");
    assert!(
        !local.contains(&"feat/auth-1".to_string()),
        "no layer may be created when the plan cannot complete"
    );
    assert_eq!(
        state.get_branch("feat/auth").expect("original").parent,
        "main",
        "the original branch must be left untouched"
    );
}

#[test]
fn split_refuses_a_branch_containing_a_merge_commit() {
    let mut state = tracked_state();
    let mut local = vec!["main".to_string(), "feat/auth".to_string()];
    let error =
        split_auth(&mut local, &mut state, 1).expect_err("split must refuse merge commits");
    assert!(error.message().contains("merge commit"), "the error explains why");
    assert!(!local.contains(&"feat/auth-1".to_string()));
    split_auth(&mut local, &mut state, 0).expect("a straight history is split");
    assert!(local.contains(&"feat/auth-1".to_string()));
    assert_eq!(local.len(), 4, "one branch for each commit but the last");
    assert_eq!(state.get_branch("feat/auth").unwrap().parent, "feat/auth-2");
}

#[test]
fn a_split_that_cannot_make_a_layer_records_nothing() {
    let state = tracked_state();
    let start = split::run(&state, "feat/auth", Some("part".to_string()), false, facts(&[], 3, 0));
    let Ok(SplitStart::Go(work)) = start else {
        panic!("the split begins");
    };
    assert_eq!((work.layer().name.as_str(), work.layer().sha.as_str()), ("part-1", "aaa1111"));
    let work = work.step(SplitReply::Done);
    assert_eq!(work.layer().name, "part-2");
    let failed = work.step(SplitReply::Failed("no space".to_string()));
    assert_eq!(failed.phase(), SplitPhase::Failed);
    assert!(!failed.state().is_managed("part-1"));
    assert_eq!(failed.finish().unwrap_err().message(), "no space");
}

#[test]
fn split_dry_run_creates_nothing() {
    let state = tracked_state();
    let Ok(SplitStart::Preview { parent, layers }) =
        split::run(&state, "feat/auth", None, true, facts(&[], 3, 0))
    else {
        panic!("only a preview");
    };
    let receipt = to_value(&dry_run_receipt("feat/auth", &parent, &layers));
    assert_eq!(receipt["layers"][0]["branch"], "feat/auth-1");
    let taken = vec!["feat/auth-1".to_string()];
    assert!(split::run(&state, "feat/auth", None, true, facts(&taken, 3, 0)).is_err());
    assert_eq!(receipt["branch"], "feat/auth");
    assert_eq!(state.get_branch("feat/auth").expect("original").parent, "main");
    assert!(!state.is_managed("feat/auth-1"));
}

#[test]
fn split_of_one_commit_does_nothing() {
    assert!(!splittable("feat/auth", "main", 1, 0).unwrap());
    let receipt = to_value(&noop_receipt("feat/auth", 1));
    assert_eq!(receipt["action"], "noop");
    assert_eq!(receipt["reason"], "fewer_than_two_commits");
    assert!(matches!(
        split::run(&tracked_state(), "feat/auth", None, false, facts(&[], 1, 0)),
        Ok(SplitStart::Noop(1))
    ));
    assert!(matches!(
        split::run(&tracked_state(), "main", None, false, facts(&[], 3, 0)),
        Err(EzError::OnTrunk)
    ));
    assert!(matches!(
        split::run(&tracked_state(), "x", None, false, facts(&[], 3, 0)),
        Err(EzError::BranchNotInStack(b)) if b == "x"
    ));
    assert_eq!(fork_point(&tracked_state(), "feat/auth", None).unwrap(), "base000");
}

#[test]
fn plan_split_chains_each_commit_and_leaves_the_original_on_top() {
    let layers = plan_split("feat/auth", "feat/auth", "main", "base000", &commits());

    assert_eq!(layers.len(), 3);
    assert_eq!(layers[0].name, "feat/auth-1");
    assert_eq!(layers[0].parent, "main");
    assert_eq!(layers[0].parent_head, "base000");
    assert_eq!(layers[0].sha, "aaa1111");
    assert_eq!(layers[1].name, "feat/auth-2");
    assert_eq!(layers[1].parent, "feat/auth-1");
    assert_eq!(layers[1].parent_head, "aaa1111");
    assert_eq!(layers[2].name, "feat/auth");
    assert!(layers[2].is_original);
    assert_eq!(layers[2].sha, "ccc3333");
    assert_eq!(layers[2].parent, "feat/auth-2");
    assert_eq!(layers[2].parent_head, "bbb2222");
    assert_eq!(layers.iter().filter(|l| l.is_original).count(), 1);
}

#[test]
fn plan_split_honors_a_custom_prefix_without_renaming_the_original() {
    let layers = plan_split("feat/auth", "part", "main", "base000", &commits());

    assert_eq!(layers[0].name, "part-1");
    assert_eq!(layers[1].name, "part-2");
    assert_eq!(
        layers[2].name, "feat/auth",
        "the original keeps its name so its PR survives"
    );
}

#[test]
fn plan_split_of_two_commits_creates_exactly_one_new_branch() {
    let two = commits()[..2].to_vec();
    let layers = plan_split("feat/auth", "feat/auth", "main", "base000", &two);

    assert_eq!(layers.len(), 2);
    assert_eq!(layers[0].name, "feat/auth-1");
    assert!(!layers[0].is_original);
    assert!(layers[1].is_original);
    assert_eq!(layers.iter().filter(|l| !l.is_original).count(), 1);
}
