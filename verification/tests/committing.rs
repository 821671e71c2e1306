use ez_stack::branch_map::{BranchMeta, ScopeMode};
use ez_stack::cmd::amend::{self, amend_receipt, ensure_staged, AmendPhase, AmendReply};
use ez_stack::cmd::commit::{self, commit_receipt, subject, CommitEvent, CommitStage};
use ez_stack::cmd::committing::{CommitPhase, CommitReply};
use ez_stack::cmd::mutation_guard::{
    commit_with_guard, hook_changes, proceed_after_staging, receipt_data_from_scope_decision,
    scope_mode_str, scope_preflight, tracked_only_untracked_hint, CommitOutcome, ScopeReceiptData,
    StageMode, Staging,
};
use ez_stack::error::EzError;
use ez_stack::json::to_value;
use ez_stack::scope::{evaluate_scope, ScopeDecision, ScopeReport};
use ez_stack::stack::StackState;

fn managed_feature(scope: Option<Vec<String>>, scope_mode: Option<ScopeMode>) -> StackState {
    let mut state = StackState::new("main".to_string());
    state.add_branch("feat/test", "main", "m0", scope, scope_mode);
    state
}

/// A working tree in memory.
struct Tree {
    modified: Vec<String>,
    untracked: Vec<String>,
    staged: Vec<String>,
    head: usize,
    /// The files of the last commit.
    last: Vec<String>,
    refuses: bool,
}

fn all(names: &[&str]) -> Vec<String> {
    names.iter().map(|n| n.to_string()).collect()
}

impl Tree {
    fn new(modified: &[&str], untracked: &[&str]) -> Tree {
        Tree {
            modified: all(modified),
            untracked: all(untracked),
            staged: Vec::new(),
            head: 1,
            last: Vec::new(),
            refuses: false,
        }
    }

    fn sha(&self) -> String {
        format!("{:07}abc", self.head)
    }

    fn stage(&mut self, how: Staging, paths: &[String]) {
        let wanted = |f: &String, known: bool| match how {
            Staging::Paths => paths.contains(f),
            Staging::TrackedOnly => known,
            Staging::All => true,
            Staging::AsIs => false,
        };
        let (taken, left) = self.modified.drain(..).partition(|f| wanted(f, true));
        self.modified = left;
        self.staged.extend::<Vec<String>>(taken);
        let (taken, left) = self.untracked.drain(..).partition(|f| wanted(f, false));
        self.untracked = left;
        self.staged.extend::<Vec<String>>(taken);
    }

    /// Staged, modified and untracked files.
    fn status(&self) -> (usize, usize, usize) {
        (self.staged.len(), self.modified.len(), self.untracked.len())
    }

    fn make(&mut self) -> bool {
        if !self.refuses {
            self.last = self.staged.drain(..).collect();
            self.head += 1;
        }
        !self.refuses
    }

    fn commit(
        &mut self,
        state: &StackState,
        current: &str,
        mode: Option<StageMode>,
        if_changed: bool,
        paths: &[&str],
    ) -> Result<Option<CommitOutcome>, EzError> {
        let paths = all(paths);
        let mut work = commit_with_guard(state, current, mode, if_changed, &paths)?;
        loop {
            let reply = match work.phase() {
                CommitPhase::Stage => {
                    self.stage(work.staging(), &paths);
                    CommitReply::Done
                }
                CommitPhase::CheckStaged => CommitReply::Staged(!self.staged.is_empty()),
                CommitPhase::Files => {
                    let patterns = work.patterns().cloned().unwrap_or_default();
                    let within = |f: &&String| {
                        patterns.iter().any(|p| f.starts_with(p.trim_end_matches("**")))
                    };
                    CommitReply::Files {
                        staged: self.staged.clone(),
                        matched: Ok(self.staged.iter().filter(within).cloned().collect()),
                    }
                }
                CommitPhase::Head | CommitPhase::HeadAfter => CommitReply::Text(self.sha()),
                CommitPhase::Commit => {
                    if self.make() {
                        CommitReply::Done
                    } else {
                        CommitReply::Failed("hook refused".to_string())
                    }
                }
                CommitPhase::Stat => CommitReply::Stat {
                    files_changed: self.last.len() as u64,
                    insertions: 1,
                    deletions: 0,
                },
                CommitPhase::Finished | CommitPhase::Failed => return work.finish(),
            };
            work = work.step(reply);
        }
    }
}

#[test]
fn receipt_data_marks_no_scope() {
    let receipt = receipt_data_from_scope_decision(&ScopeDecision::NoConfig);
    assert!(!receipt.scope_defined);
    assert!(receipt.scope_mode.is_none());
    assert!(receipt.out_of_scope_files.is_empty());
}

#[test]
fn tracked_only_untracked_hint_only_shows_when_needed() {
    assert!(tracked_only_untracked_hint(0).is_none());
    assert!(tracked_only_untracked_hint(1).expect("hint").contains("`-A`/`-Am`"));
}

#[test]
fn receipt_data_copies_scope_violation() {
    let decision = ScopeDecision::OutOfBounds(ScopeReport {
        mode: ScopeMode::Strict,
        patterns: vec!["src/auth/**".to_string()],
        in_scope_files: vec!["src/auth/a.rs".to_string()],
        out_of_scope_files: vec!["src/billing/b.rs".to_string()],
    });
    let receipt = receipt_data_from_scope_decision(&decision);
    assert!(receipt.scope_defined);
    assert_eq!(receipt.scope_mode.as_deref(), Some("strict"));
    assert_eq!(receipt.out_of_scope_files, vec!["src/billing/b.rs".to_string()]);
}

#[test]
fn commit_with_guard_rejects_trunk_commits() {
    let state = StackState::new("main".to_string());
    let err = commit_with_guard(&state, "main", None, false, &Vec::new())
        .expect_err("trunk commit should fail");
    assert!(matches!(err, EzError::OnTrunk));
}

#[test]
fn commit_with_guard_rejects_unmanaged_branch() {
    let state = StackState::new("main".to_string());
    let err = commit_with_guard(&state, "scratch", None, false, &Vec::new())
        .expect_err("unmanaged branch should fail");
    assert!(matches!(err, EzError::BranchNotInStack(name) if name == "scratch"));
}

#[test]
fn commit_with_guard_if_changed_returns_none_when_nothing_is_staged() {
    let state = managed_feature(None, None);
    let mut tree = Tree::new(&[], &[]);
    let outcome =
        tree.commit(&state, "feat/test", None, true, &[]).expect("guard should succeed");
    assert!(outcome.is_none());
    assert_eq!(tree.head, 1);
    let err = tree.commit(&state, "feat/test", None, false, &[]).unwrap_err();
    assert!(matches!(err, EzError::NothingToCommit));
    assert_eq!(tree.head, 1);
}

#[test]
fn commit_with_guard_rejects_all_plus_paths() {
    let state = managed_feature(None, None);
    let err = commit_with_guard(
        &state,
        "feat/test",
        Some(StageMode::TrackedOnly),
        false,
        &vec!["tracked.txt".to_string()],
    )
    .expect_err("all plus paths should fail");
    assert!(
        err.message()
            .contains("cannot combine --all (-a) or --all-files (-A) with path arguments"),
        "unexpected error: {}",
        err.message()
    );
}

#[test]
fn commit_with_guard_blocks_out_of_scope_files_in_strict_mode() {
    let state =
        managed_feature(Some(vec!["src/auth/**".to_string()]), Some(ScopeMode::Strict));
    let mut tree = Tree::new(&[], &["src/billing/invoice.rs"]);
    let err = tree
        .commit(&state, "feat/test", None, false, &["src/billing/invoice.rs"])
        .expect_err("strict scope should block out-of-scope commit");
    assert!(
        err.message().contains("staged files are outside the scope for `feat/test`"),
        "unexpected error: {}",
        err.message()
    );
    assert_eq!(tree.head, 1, "a refused commit leaves the branch alone");
}

#[test]
fn commit_with_guard_stages_only_selected_paths() {
    let state = managed_feature(None, None);
    let mut tree = Tree::new(&[], &["selected.txt", "ignored.txt"]);
    let outcome = tree
        .commit(&state, "feat/test", None, false, &["selected.txt"])
        .expect("commit should succeed")
        .expect("commit outcome");
    assert_eq!(outcome.files_changed, 1);
    assert_eq!(tree.last, all(&["selected.txt"]));
    assert_eq!(tree.status(), (0, 0, 1));
    assert!(!outcome.scope.scope_defined);
}

#[test]
fn commit_with_guard_all_files_stages_untracked_files() {
    let state = managed_feature(None, None);
    let mut tree = Tree::new(&[], &["new.txt"]);
    let outcome = tree
        .commit(&state, "feat/test", Some(StageMode::All), false, &[])
        .expect("commit should succeed")
        .expect("commit outcome");
    assert_eq!(outcome.files_changed, 1);
    assert_eq!(tree.last, all(&["new.txt"]));
    assert_eq!(tree.status(), (0, 0, 0));
}

#[test]
fn a_warned_commit_is_made_and_tells_of_the_files() {
    let state = managed_feature(Some(vec!["src/auth/**".to_string()]), None);
    let mut tree = Tree::new(&["src/auth/a.rs", "docs/x.md"], &[]);
    let before = tree.sha();
    let outcome = tree
        .commit(&state, "feat/test", Some(StageMode::TrackedOnly), false, &[])
        .unwrap()
        .expect("a commit");
    assert_eq!(outcome.current, "feat/test");
    assert_eq!((outcome.before, outcome.after), (before, tree.sha()));
    assert_eq!(outcome.scope.scope_mode.as_deref(), Some("warn"));
    assert_eq!(outcome.scope.out_of_scope_files, all(&["docs/x.md"]));
}

#[test]
fn a_commit_that_git_refuses_fails_with_its_words() {
    let state = managed_feature(None, None);
    let mut tree = Tree::new(&["a.rs"], &[]);
    tree.refuses = true;
    let err =
        tree.commit(&state, "feat/test", Some(StageMode::All), false, &[]).unwrap_err();
    assert_eq!(err.message(), "hook refused");
    assert_eq!(tree.head, 1);
}

#[test]
fn warn_mode_lets_a_commit_pass_and_reports_the_files() {
    let state = managed_feature(Some(vec!["src/auth/**".to_string()]), None);
    let meta: &BranchMeta = state.get_branch("feat/test").unwrap();
    assert_eq!(meta.effective_scope_mode(), ScopeMode::Warn);
    let staged = vec!["src/auth/a.rs".to_string(), "docs/x.md".to_string()];
    let data = scope_preflight(
        "feat/test",
        meta,
        &staged,
        Ok(vec!["src/auth/a.rs".to_string()]),
    )
    .unwrap();
    assert!(data.scope_defined);
    assert_eq!(data.scope_mode.as_deref(), Some("warn"));
    assert_eq!(data.out_of_scope_files, vec!["docs/x.md".to_string()]);
    assert!(scope_preflight("feat/test", meta, &staged, Err("bad pattern".to_string())).is_err());
    assert!(matches!(
        evaluate_scope(&Vec::new(), ScopeMode::Warn, &staged, &staged),
        ScopeDecision::NoConfig
    ));
    assert!(matches!(
        evaluate_scope(&vec!["**".to_string()], ScopeMode::Warn, &staged, &staged),
        ScopeDecision::InBounds(_)
    ));
    assert_eq!(scope_mode_str(ScopeMode::Strict), "strict");
}

#[test]
fn hook_changes_are_the_newly_modified_files() {
    assert_eq!(
        hook_changes(&vec!["a".to_string()], &vec!["a".to_string(), "b".to_string()]),
        vec!["b".to_string()]
    );
}

fn managed_topic() -> StackState {
    let mut state = StackState::new("main".to_string());
    state.add_branch("feat/topic", "main", "m0", None, None);
    state
}

/// Amends the last commit of a tree, and restacks so many branches above it.
fn amend_tree(
    tree: &mut Tree,
    state: &StackState,
    current: &str,
    all: bool,
    above: Result<usize, EzError>,
) -> Result<(usize, Option<serde_json::Value>), EzError> {
    let mut work = amend::run(state, current, all)?;
    let mut above = Some(above);
    loop {
        let reply = match work.phase() {
            AmendPhase::Stage => {
                tree.stage(Staging::TrackedOnly, &[]);
                AmendReply::Done
            }
            AmendPhase::CheckStaged => AmendReply::Staged(!tree.staged.is_empty()),
            AmendPhase::Head | AmendPhase::HeadAfter => AmendReply::Text(tree.sha()),
            AmendPhase::Amend => {
                tree.make();
                AmendReply::Done
            }
            AmendPhase::Stat => AmendReply::Stat {
                files_changed: tree.last.len() as u64,
                insertions: 2,
                deletions: 3,
            },
            AmendPhase::Cascade => AmendReply::Cascaded {
                state: work.state().copy(),
                outcome: above.take().expect("one cascade"),
            },
            AmendPhase::Finished | AmendPhase::Failed => {
                let receipt = work.receipt().map(to_value);
                return work.finish().map(|n| (n, receipt));
            }
        };
        work = work.step(reply);
    }
}

#[test]
fn rejects_trunk_unmanaged_and_unstaged_amends() {
    let state = managed_topic();
    assert!(amend::run(&state, "main", false)
        .expect_err("trunk must fail")
        .message()
        .contains("trunk"));
    assert!(amend::run(&state, "outside", false)
        .expect_err("unmanaged must fail")
        .message()
        .contains("not tracked by ez"));
    let mut tree = Tree::new(&["a.rs"], &[]);
    assert!(amend_tree(&mut tree, &state, "feat/topic", false, Ok(0))
        .expect_err("unstaged amend must fail")
        .message()
        .contains("no staged changes"));
    assert_eq!(tree.head, 1, "nothing was amended");
    assert!(ensure_staged(false, false).is_err());
}

#[test]
fn stages_all_and_amends_managed_branch() {
    let state = managed_topic();
    let mut tree = Tree::new(&["tracked.txt"], &["new.txt"]);
    let (restacked, receipt) =
        amend_tree(&mut tree, &state, "feat/topic", true, Ok(2)).expect("amend succeeds");
    assert_eq!(restacked, 2);
    assert_eq!(tree.last, all(&["tracked.txt"]));
    assert_eq!(tree.status(), (0, 0, 1));
    let receipt = receipt.expect("a receipt");
    assert_eq!(receipt["cmd"], "amend");
    assert_eq!(receipt["before"], "0000001");
    assert_eq!(receipt["after"], "0000002");
    ensure_staged(true, true).expect("staged by -a");
    ensure_staged(false, true).expect("staged before");
    let receipt =
        to_value(&amend_receipt("feat/topic", "0123456789", "abcdefghij", 1, 2, 3));
    assert_eq!(receipt["branch"], "feat/topic");
    assert_eq!(receipt["before"], "0123456");
    assert_eq!(receipt["after"], "abcdefg");
}

#[test]
fn an_amend_ends_with_the_branches_that_its_cascade_left_behind() {
    let behind = EzError::RestackIncomplete { count: 1, branches: "feat/above".to_string() };
    let mut tree = Tree::new(&["tracked.txt"], &[]);
    let err =
        amend_tree(&mut tree, &managed_topic(), "feat/topic", true, Err(behind)).unwrap_err();
    assert!(matches!(err, EzError::RestackIncomplete { count: 1, .. }));
    assert_eq!(tree.head, 2, "the amendment itself stands");
}

#[test]
fn test_if_changed_semantics() {
    assert_eq!(proceed_after_staging(true, false).expect("skips"), false);
    assert_eq!(proceed_after_staging(true, true).expect("commits"), true);
    assert!(matches!(proceed_after_staging(false, false), Err(EzError::NothingToCommit)));
}

#[test]
fn if_changed_skips_without_mutating_state() {
    let state = managed_topic();
    let mut tree = Tree::new(&["a.rs"], &[]);
    let outcome = tree
        .commit(&state, "feat/topic", commit::stage_mode(false, false), true, &[])
        .expect("skip succeeds");
    assert!(outcome.is_none());
    assert_eq!(tree.head, 1);
    assert_eq!(tree.status(), (0, 1, 0));
    assert_eq!(state.get_branch("feat/topic").unwrap().parent_head, "m0");
}

#[test]
fn tracked_and_untracked_stage_modes_commit_real_git_state() {
    let state = managed_topic();
    let mut tree = Tree::new(&["tracked.txt"], &["new.txt"]);
    tree.commit(&state, "feat/topic", commit::stage_mode(true, false), false, &[])
        .unwrap()
        .expect("tracked commit");
    assert_eq!(tree.last, all(&["tracked.txt"]));
    assert_eq!(tree.status(), (0, 0, 1));
    tree.commit(&state, "feat/topic", commit::stage_mode(false, true), false, &[])
        .unwrap()
        .expect("commit of all files");
    assert_eq!(tree.last, all(&["new.txt"]));
    assert_eq!(tree.status(), (0, 0, 0));
    assert_eq!(tree.head, 3);
}

#[test]
fn descendants_are_restacked_only_after_a_commit() {
    let state = managed_topic();
    let mut tree = Tree::new(&["a.rs"], &[]);
    let made = tree.commit(&state, "feat/topic", Some(StageMode::All), false, &[]);
    let work = commit::run(&state).step(CommitEvent::Committed(made));
    assert_eq!(work.stage, CommitStage::Cascade);
    assert_eq!(to_value(work.receipt.as_ref().unwrap())["cmd"], "commit");
    let behind = EzError::RestackIncomplete { count: 1, branches: "feat/above".to_string() };
    let failed =
        work.step(CommitEvent::Cascaded { state: state.copy(), outcome: Err(behind) });
    assert_eq!(failed.stage, CommitStage::Failed);
    assert!(failed.receipt.is_some(), "the commit stands");

    let made = tree.commit(&state, "feat/topic", None, true, &[]);
    let idle = commit::run(&state).step(CommitEvent::Committed(made));
    assert_eq!(idle.stage, CommitStage::Finished);
    assert!(idle.receipt.is_none());
    let made = tree.commit(&state, "feat/topic", None, false, &[]);
    let refused = commit::run(&state).step(CommitEvent::Committed(made));
    assert_eq!(refused.stage, CommitStage::Failed);
    assert!(matches!(refused.error, Some(EzError::NothingToCommit)));
}

#[test]
fn commit_subject_and_receipt() {
    assert_eq!(subject("first\n\nsecond"), "first");
    assert_eq!(subject(""), "");
    let outcome = CommitOutcome {
        current: "feat/topic".to_string(),
        before: "0123456789".to_string(),
        after: "abcdefghij".to_string(),
        files_changed: 1,
        insertions: 2,
        deletions: 3,
        scope: ScopeReceiptData {
            scope_defined: true,
            scope_mode: Some("warn".to_string()),
            out_of_scope_files: vec!["x".to_string()],
        },
    };
    let receipt = to_value(&commit_receipt(&outcome));
    assert_eq!(receipt["cmd"], "commit");
    assert_eq!(receipt["before"], "0123456");
    assert_eq!(receipt["insertions"], 2);
    assert_eq!(receipt["out_of_scope_count"], 1);
    assert_eq!(receipt["out_of_scope_files"][0], "x");
    assert_eq!(receipt["scope_mode"], "warn");
}
