use ez_stack::cmd::cascade::{Cascade, CascadeAction, CascadeReply, CascadeResult};
use ez_stack::cmd::merge::MergeTarget;
use ez_stack::cmd::merging::{MergePhase, MergeReply, Merging};
use ez_stack::cmd::move_branch::{move_method, own_preflight, MoveMethod};
use ez_stack::cmd::moving::{MovePhase, MoveReply, Moving};
use ez_stack::cmd::preflight::{
    self, cherry_stats, enforce, inspect_candidate, inspect_candidates, move_candidates,
    resolved_candidate, restack_candidates, BranchPreflight, CandidateFacts, CherryStats,
    RebaseCandidate, RebasePreflight,
};
use ez_stack::cmd::rebase_conflict::{self, report};
use ez_stack::cmd::restack::{
    self, cascade_restack, effective_old_base, restack_branches_with_options,
    Restack, RestackAction, RestackFailure, RestackFailureKind, RestackOptions, RestackReply,
    RestackReport,
};
use ez_stack::cmd::track::{self, infer_parent, record, select_best_parent};
use ez_stack::error::EzError;
use ez_stack::git::{GitView, RebaseConflict};
use ez_stack::github::{MergePrOutcome, NativeStackInfo};
use ez_stack::json::{receipt_line, to_value};
use ez_stack::name_map::NameMap;
use ez_stack::stack::StackState;
use std::collections::BTreeMap;

/// One commit: its parents, and the file that it gives new contents.
struct Commit {
    parents: Vec<usize>,
    file: String,
    contents: String,
}

/// A repository in memory.
struct Repo {
    commits: Vec<Commit>,
    branches: BTreeMap<String, usize>,
    guards: Vec<(String, String)>,
    rebasing: Option<String>,
    current: String,
    saved: Option<StackState>,
}

fn sha(n: usize) -> String {
    format!("{n:07}0123456789")
}

impl Repo {
    fn new() -> Repo {
        Repo {
            commits: vec![Commit {
                parents: Vec::new(),
                file: "tracked.txt".to_string(),
                contents: "base\n".to_string(),
            }],
            branches: BTreeMap::from([("main".to_string(), 0)]),
            guards: Vec::new(),
            rebasing: None,
            current: "main".to_string(),
            saved: None,
        }
    }

    fn branch_at(&mut self, name: &str, at: &str) {
        let tip = self.branches[at];
        self.branches.insert(name.to_string(), tip);
    }

    fn commit(&mut self, branch: &str, file: &str, contents: &str) -> String {
        let tip = self.branches[branch];
        self.commits.push(Commit {
            parents: vec![tip],
            file: file.to_string(),
            contents: contents.to_string(),
        });
        let id = self.commits.len() - 1;
        self.branches.insert(branch.to_string(), id);
        sha(id)
    }

    fn merge(&mut self, branch: &str, other: &str) -> String {
        let parents = vec![self.branches[branch], self.branches[other]];
        self.commits.push(Commit {
            parents,
            file: "merge.txt".to_string(),
            contents: "merge\n".to_string(),
        });
        let id = self.commits.len() - 1;
        self.branches.insert(branch.to_string(), id);
        sha(id)
    }

    fn tip(&self, branch: &str) -> String {
        sha(self.branches[branch])
    }

    fn find(&self, name: &str) -> Option<usize> {
        match self.branches.get(name) {
            Some(id) => Some(*id),
            None => (0..self.commits.len()).find(|id| sha(*id) == name),
        }
    }

    fn reach(&self, from: usize) -> Vec<usize> {
        let mut seen = vec![from];
        let mut i = 0;
        while i < seen.len() {
            for p in &self.commits[seen[i]].parents {
                if !seen.contains(p) {
                    seen.push(*p);
                }
            }
            i += 1;
        }
        seen
    }

    fn is_ancestor(&self, a: &str, b: &str) -> bool {
        match (self.find(a), self.find(b)) {
            (Some(x), Some(y)) => self.reach(y).contains(&x),
            _ => false,
        }
    }

    fn merge_base(&self, a: usize, b: usize) -> Option<usize> {
        let x = self.reach(a);
        let y = self.reach(b);
        let common: Vec<usize> = x.into_iter().filter(|c| y.contains(c)).collect();
        common.iter().copied().max_by_key(|c| self.reach(*c).len())
    }

    fn view(&self) -> GitView {
        let mut names: Vec<String> = self.branches.keys().cloned().collect();
        names.extend((0..self.commits.len()).map(sha));
        let mut tips = Vec::new();
        let mut bases = Vec::new();
        let mut ancestors = Vec::new();
        for a in &names {
            let x = self.find(a).unwrap();
            tips.push((a.clone(), sha(x)));
            for b in &names {
                let y = self.find(b).unwrap();
                if let Some(m) = self.merge_base(x, y) {
                    bases.push(((a.clone(), b.clone()), sha(m)));
                }
                if self.reach(y).contains(&x) {
                    ancestors.push((a.clone(), b.clone()));
                }
            }
        }
        GitView { local: self.branches.keys().cloned().collect(), tips, bases, ancestors }
    }

    /// The commits of `branch` that `base` does not hold, oldest first.
    fn own(&self, branch: &str, base: &str) -> Vec<usize> {
        let low = match self.find(base) {
            Some(b) => self.reach(b),
            None => Vec::new(),
        };
        let mut ids: Vec<usize> = self
            .reach(self.find(branch).unwrap())
            .into_iter()
            .filter(|c| !low.contains(c))
            .collect();
        ids.sort();
        ids
    }

    fn held_by(&self, change: usize, ids: &[usize]) -> bool {
        ids.iter().any(|o| {
            self.commits[*o].file == self.commits[change].file
                && self.commits[*o].contents == self.commits[change].contents
        })
    }

    fn facts(&self, branch: &str, destination: &str, old_base: &str) -> CandidateFacts {
        let own = self.own(branch, old_base);
        let merges = own.iter().filter(|c| self.commits[**c].parents.len() > 1).count();
        let there = self.own(destination, old_base);
        let mut text = String::new();
        for c in own.iter().filter(|c| self.commits[**c].parents.len() < 2) {
            let mark = if self.held_by(*c, &there) { "-" } else { "+" };
            text.push_str(&format!("{mark} {}\n", sha(*c)));
        }
        CandidateFacts {
            branch_tip: Ok(self.tip(branch)),
            merge_commits: Ok(merges as u64),
            cherry: Ok(text),
        }
    }

    fn rebase(&mut self, branch: &str, onto: &str, old_base: &str) -> RestackReply {
        let there = self.own(onto, old_base);
        let mut at = self.find(onto).unwrap();
        for c in self.own(branch, old_base) {
            if self.held_by(c, &there) {
                continue;
            }
            let file = self.commits[c].file.clone();
            if there.iter().any(|o| self.commits[*o].file == file) {
                self.rebasing = Some(branch.to_string());
                return RestackReply::Conflict(RebaseConflict {
                    conflicting_files: vec![file.clone()],
                    stderr: format!("CONFLICT (content): Merge conflict in {file}"),
                });
            }
            let contents = self.commits[c].contents.clone();
            self.commits.push(Commit { parents: vec![at], file, contents });
            at = self.commits.len() - 1;
        }
        self.branches.insert(branch.to_string(), at);
        RestackReply::Moved { after: sha(at) }
    }

    fn drive(&mut self, mut restack: Restack) -> Restack {
        while let Some(reply) = self.answer(restack.action()) {
            restack = restack.step(reply);
        }
        restack
    }

    fn run(&mut self, mut cascade: Cascade) -> CascadeResult {
        loop {
            let reply = match cascade.action() {
                CascadeAction::Restack(action) => {
                    CascadeReply::Restack(self.answer(action).expect("work to do"))
                }
                CascadeAction::Save => {
                    self.saved = Some(cascade.state().copy());
                    CascadeReply::Done
                }
                CascadeAction::Return(branch) => {
                    self.current = branch;
                    CascadeReply::Done
                }
                CascadeAction::Ended => return cascade.finish(),
            };
            cascade = cascade.step(reply);
        }
    }

    fn answer(&mut self, action: RestackAction) -> Option<RestackReply> {
        Some(match action {
            RestackAction::Observe { branch, .. } => RestackReply::Observed {
                git: self.view(),
                guard: self
                    .guards
                    .iter()
                    .find(|(b, _)| *b == branch)
                    .map(|(_, g)| g.clone()),
                unresolved: "unknown revision".to_string(),
            },
            RestackAction::Inspect { branch, destination_tip, old_base } => {
                RestackReply::Inspected(self.facts(&branch, &destination_tip, &old_base))
            }
            RestackAction::Align { branch, target, expected } => {
                assert_eq!(self.tip(&branch), expected);
                let id = self.find(&target).unwrap();
                self.branches.insert(branch, id);
                RestackReply::Moved { after: target }
            }
            RestackAction::Rebase { branch, onto, old_base } => {
                self.current = branch.clone();
                self.rebase(&branch, &onto, &old_base)
            }
            RestackAction::Recover(branch) => {
                assert_eq!(self.rebasing.as_deref(), Some(branch.as_str()));
                self.rebasing = None;
                RestackReply::Done
            }
            RestackAction::Finished => return None,
        })
    }
}

fn restack_all(repo: &mut Repo, state: &StackState, order: &[&str]) -> (StackState, RestackReport) {
    let order: Vec<String> = order.iter().map(|b| b.to_string()).collect();
    let restack =
        restack_branches_with_options(state, order, "test", RestackOptions { force: false });
    let (state, report, _) = repo.drive(restack).finish();
    (state, report)
}

#[test]
fn restack_branches_skips_a_conflicting_branch_and_keeps_going() {
    let mut repo = Repo::new();
    let main_sha = repo.tip("main");
    repo.branch_at("feat/bad", "main");
    repo.commit("feat/bad", "tracked.txt", "branch\n");
    repo.branch_at("feat/good", "main");
    repo.commit("feat/good", "good.txt", "x\n");
    let mut state = StackState::new("main".to_string());
    state.add_branch("feat/bad", "main", &main_sha, None, None);
    state.add_branch("feat/good", "main", &main_sha, None, None);
    let main_sha2 = repo.commit("main", "tracked.txt", "trunk\n");

    let (state, report) = restack_all(&mut repo, &state, &["feat/bad", "feat/good"]);

    assert_eq!(report.failures.len(), 1, "only feat/bad should fail");
    assert_eq!(report.failures[0].branch, "feat/bad");
    assert!(matches!(report.failures[0].kind, RestackFailureKind::Conflict));
    assert_eq!(report.restacked, 1, "feat/good should still be restacked");
    assert!(repo.is_ancestor("main", "feat/good"));
    assert_eq!(state.get_branch("feat/good").expect("good").parent_head, main_sha2);
    assert_eq!(state.get_branch("feat/bad").expect("bad").parent_head, main_sha);
    assert!(!repo.is_ancestor("main", "feat/bad"));
    assert!(repo.rebasing.is_none(), "no rebase should still be in progress after the failure");
}

#[test]
fn restack_branches_derives_base_when_metadata_went_stale() {
    let mut repo = Repo::new();
    let main_sha = repo.tip("main");
    repo.branch_at("feat/a", "main");
    repo.commit("feat/a", "a.txt", "x\n");
    repo.branch_at("gone", "main");
    let bogus_sha = repo.commit("gone", "gone.txt", "x\n");
    repo.branches.remove("gone");
    let mut state = StackState::new("main".to_string());
    state.add_branch("feat/a", "main", &bogus_sha, None, None);
    let main_sha2 = repo.commit("main", "trunk.txt", "x\n");
    assert_ne!(main_sha2, main_sha);

    let (state, report) = restack_all(&mut repo, &state, &["feat/a"]);

    assert!(report.is_clean(), "stale metadata must not fail the restack: {:?}", report.failures);
    assert_eq!(report.restacked, 1);
    assert!(repo.is_ancestor("main", "feat/a"));
    let files: Vec<&str> = repo
        .own("feat/a", "main")
        .into_iter()
        .map(|c| repo.commits[c].file.as_str())
        .collect();
    assert!(files.contains(&"a.txt"), "feat/a keeps its own commit");
    assert!(
        !files.contains(&"gone.txt"),
        "the unrelated branch's commit must not be replayed onto feat/a"
    );
    assert_eq!(files.len(), 1);
    assert_eq!(state.get_branch("feat/a").expect("a").parent_head, main_sha2);
}

#[test]
fn restack_branches_reparents_when_the_recorded_parent_is_gone_from_git() {
    let mut repo = Repo::new();
    let main_sha = repo.tip("main");
    repo.branch_at("feat/a", "main");
    let a_sha = repo.commit("feat/a", "a.txt", "x\n");
    repo.branch_at("feat/b", "feat/a");
    repo.commit("feat/b", "b.txt", "x\n");
    let mut state = StackState::new("main".to_string());
    state.add_branch("feat/a", "main", &main_sha, None, None);
    state.add_branch("feat/b", "feat/a", &a_sha, None, None);
    repo.branches.remove("feat/a");
    let main_sha2 = repo.commit("main", "trunk.txt", "x\n");

    let (state, report) = restack_all(&mut repo, &state, &["feat/a", "feat/b"]);

    assert!(report.is_clean(), "a deleted parent must not fail the run: {:?}", report.failures);
    assert_eq!(report.restacked, 1);
    assert_eq!(state.get_branch("feat/b").expect("b").parent, "main");
    assert_eq!(state.get_branch("feat/b").expect("b").parent_head, main_sha2);
    assert!(repo.is_ancestor("main", "feat/b"));
}

#[test]
fn effective_old_base_trusts_metadata_that_still_matches_git() {
    let mut repo = Repo::new();
    let main_sha = repo.tip("main");
    repo.branch_at("feat/a", "main");
    repo.commit("feat/a", "a.txt", "x\n");

    let (base, derived) = effective_old_base(&repo.view(), "feat/a", "main", &main_sha);
    assert_eq!(base, main_sha);
    assert!(!derived, "a valid recorded base should be used as-is");
}

fn three_deep(repo: &mut Repo) -> (StackState, String) {
    let main_sha = repo.tip("main");
    repo.branch_at("feat/a", "main");
    let a_sha1 = repo.commit("feat/a", "a.txt", "x\n");
    repo.branch_at("feat/b", "feat/a");
    let b_sha1 = repo.commit("feat/b", "b.txt", "x\n");
    repo.branch_at("feat/c", "feat/b");
    repo.commit("feat/c", "c.txt", "x\n");
    let mut state = StackState::new("main".to_string());
    state.add_branch("feat/a", "main", &main_sha, None, None);
    state.add_branch("feat/b", "feat/a", &a_sha1, None, None);
    state.add_branch("feat/c", "feat/b", &b_sha1, None, None);
    (state, a_sha1)
}

#[test]
fn cascade_restack_rebases_grandchildren_not_just_direct_children() {
    let mut repo = Repo::new();
    let (state, a_sha1) = three_deep(&mut repo);
    let a_sha2 = repo.commit("feat/a", "a2.txt", "x\n");
    assert_ne!(a_sha2, a_sha1);

    let CascadeResult { state, report, receipts, outcome, .. } =
        repo.run(cascade_restack(&state, "feat/a", "feat/a", "test"));

    assert_eq!(outcome.expect("cascade"), 2, "both feat/b and feat/c should be restacked");
    assert_eq!(repo.current, "feat/a");
    assert_eq!(
        repo.saved.as_ref().expect("saved").get_branch("feat/b").expect("b").parent_head,
        a_sha2
    );
    assert_eq!(report.restacked_branches, vec!["feat/b".to_string(), "feat/c".to_string()]);
    assert_eq!(receipts.len(), 2);
    assert!(repo.is_ancestor("feat/a", "feat/c"));
    let files: Vec<&str> = repo
        .reach(repo.branches["feat/c"])
        .into_iter()
        .map(|c| repo.commits[c].file.as_str())
        .collect();
    assert!(files.contains(&"a2.txt"), "feat/a's new file must reach the grandchild");
    assert_eq!(state.get_branch("feat/b").expect("b").parent_head, a_sha2);
    let b_sha2 = repo.tip("feat/b");
    assert_eq!(state.get_branch("feat/c").expect("c").parent_head, b_sha2);
}

#[test]
fn cascade_restack_saves_failure_state_and_returns_to_root() {
    let mut repo = Repo::new();
    let main_sha = repo.tip("main");
    repo.branch_at("feat/a", "main");
    let a_sha1 = repo.commit("feat/a", "a.txt", "x\n");
    repo.branch_at("feat/b", "feat/a");
    repo.commit("feat/b", "tracked.txt", "child\n");
    let mut state = StackState::new("main".to_string());
    state.add_branch("feat/a", "main", &main_sha, None, None);
    state.add_branch("feat/b", "feat/a", &a_sha1, None, None);
    let a_sha2 = repo.commit("feat/a", "tracked.txt", "parent\n");
    assert_ne!(a_sha1, a_sha2);

    let CascadeResult { state, outcome, incomplete, .. } =
        repo.run(cascade_restack(&state, "feat/a", "feat/a", "test"));

    let error = outcome.expect_err("conflicting child should make cascade incomplete");
    let receipt = incomplete.expect("a receipt for the branch left behind");
    assert_eq!(repo.current, "feat/a");
    assert!(error.message().contains("could not be restacked"));
    assert!(matches!(&error, EzError::RestackIncomplete { count: 1, branches } if branches == "feat/b"));
    assert_eq!(to_value(&receipt)["failed"][0]["reason"], "conflict");
    assert_eq!(
        state.get_branch("feat/b").expect("b").parent_head,
        a_sha1,
        "failed child keeps its stale parent_head for retry"
    );
    assert_eq!(
        repo.saved.as_ref().expect("saved state").get_branch("feat/b").expect("saved b").parent_head,
        a_sha1,
        "cascade failure should persist the retryable state"
    );
    assert!(repo.rebasing.is_none(), "failed cascade should not leave a rebase in progress");
}

#[test]
fn a_second_restack_after_a_clean_one_changes_nothing() {
    let mut repo = Repo::new();
    let (state, _) = three_deep(&mut repo);
    repo.commit("feat/a", "a2.txt", "x\n");
    let first = repo.run(restack::run(&state, "feat/c", false));
    assert_eq!(first.outcome.expect("clean"), 2);
    assert_eq!(repo.current, "feat/c");
    let before = repo.branches.clone();
    let again = repo.run(restack::run(&first.state, "feat/c", false));
    assert_eq!(again.outcome.expect("clean"), 0);
    assert!(again.receipts.is_empty());
    assert_eq!(repo.branches, before);
    for b in ["feat/a", "feat/b", "feat/c"] {
        assert_eq!(
            again.state.get_branch(b).unwrap().parent_head,
            first.state.get_branch(b).unwrap().parent_head
        );
    }
}

#[test]
fn a_cascade_that_cannot_save_or_return_fails() {
    let mut repo = Repo::new();
    let (state, _) = three_deep(&mut repo);
    let start = || cascade_restack(&state, "feat/c", "feat/c", "commit");
    assert!(matches!(start().action(), CascadeAction::Save));
    let failed = start().step(CascadeReply::Failed("disk full".to_string()));
    assert!(matches!(failed.action(), CascadeAction::Ended));
    assert_eq!(failed.finish().outcome.unwrap_err().message(), "disk full");
    let stuck = start().step(CascadeReply::Done).step(CascadeReply::Failed("dirty".to_string()));
    assert_eq!(stuck.finish().outcome.unwrap_err().message(), "dirty");
    let all = restack::run(&StackState::new("main".to_string()), "feat/a", false);
    assert!(matches!(all.action(), CascadeAction::Return(b) if b == "feat/a"));
}

#[test]
fn a_guarded_worktree_keeps_its_branch_where_it_is() {
    let mut repo = Repo::new();
    let (state, a_sha1) = three_deep(&mut repo);
    repo.commit("feat/a", "a2.txt", "x\n");
    repo.guards.push(("feat/b".to_string(), "worktree has uncommitted changes".to_string()));
    let before = repo.tip("feat/b");
    let CascadeResult { state, report, receipts, .. } =
        repo.run(cascade_restack(&state, "feat/a", "feat/a", "commit"));
    assert_eq!(repo.tip("feat/b"), before);
    assert_eq!(state.get_branch("feat/b").unwrap().parent_head, a_sha1);
    assert_eq!(report.failures.len(), 1);
    assert_eq!(report.failures[0].reason(), "error");
    assert_eq!(report.failures[0].detail(), "worktree has uncommitted changes");
    assert_eq!(to_value(&receipts[0])["reason"], "worktree_guard");
}

#[test]
fn merge_commits_stop_a_rebase_unless_it_is_forced() {
    let mut repo = Repo::new();
    let main_sha = repo.tip("main");
    repo.branch_at("side", "main");
    repo.commit("side", "side.txt", "x\n");
    repo.branch_at("feat/a", "main");
    repo.commit("feat/a", "a.txt", "x\n");
    repo.merge("feat/a", "side");
    let mut state = StackState::new("main".to_string());
    state.add_branch("feat/a", "main", &main_sha, None, None);
    repo.commit("main", "trunk.txt", "x\n");
    let CascadeResult { report, receipts, .. } = repo.run(restack::run(&state, "main", false));
    assert_eq!(report.restacked, 0);
    assert_eq!(to_value(&receipts[0])["reason"], "merge_commit_preflight");
    assert_eq!(
        report.failures[0].detail(),
        "1 merge commit(s) require `ez restack --force` before rebase linearization"
    );
    let CascadeResult { report, .. } = repo.run(restack::run(&state, "main", true));
    assert_eq!(report.restacked, 1);
}

#[test]
fn a_branch_whose_changes_are_all_there_is_only_aligned() {
    let mut repo = Repo::new();
    let main_sha = repo.tip("main");
    repo.branch_at("feat/a", "main");
    repo.commit("feat/a", "a.txt", "x\n");
    let mut state = StackState::new("main".to_string());
    state.add_branch("feat/a", "main", &main_sha, None, None);
    repo.commit("main", "trunk.txt", "x\n");
    let tip = repo.commit("main", "a.txt", "x\n");
    let CascadeResult { state, report, receipts, .. } =
        repo.run(restack::run(&state, "main", false));
    assert!(report.is_clean());
    assert_eq!(repo.tip("feat/a"), tip);
    assert_eq!(to_value(&receipts[0])["method"], "already_applied");
    assert_eq!(to_value(&receipts[0])["redundant_commits"], 1);
    assert_eq!(state.get_branch("feat/a").unwrap().parent_head, tip);
}

#[test]
fn a_failure_shows_the_first_line_of_its_message() {
    let failure = RestackFailure {
        branch: "b".to_string(),
        parent: "p".to_string(),
        kind: RestackFailureKind::Error("first\nsecond".to_string()),
    };
    assert_eq!(failure.detail(), "first");
    let conflict = RestackFailure {
        branch: "b".to_string(),
        parent: "p".to_string(),
        kind: RestackFailureKind::Conflict,
    };
    assert_eq!(conflict.detail(), "rebase conflict");
    assert_eq!(conflict.reason(), "conflict");
    let report = RestackReport {
        restacked: 0,
        restacked_branches: Vec::new(),
        failures: vec![failure, conflict],
    };
    assert_eq!(report.branch_list(), "b, b");
}

fn branch_preflight(
    branch: &str,
    derived_base: bool,
    merge_commits: u64,
    unique: u64,
    redundant: u64,
) -> BranchPreflight {
    BranchPreflight {
        branch: branch.to_string(),
        branch_tip: format!("{branch}-tip"),
        derived_base,
        merge_commits,
        cherry: CherryStats { unique, redundant },
    }
}

#[test]
fn all_redundant_requires_only_redundant_non_merge_commits() {
    assert!(branch_preflight("feat/redundant", false, 0, 0, 2).all_redundant());
    assert!(!branch_preflight("feat/unique", false, 0, 1, 2).all_redundant());
    assert!(!branch_preflight("feat/merge", false, 1, 0, 2).all_redundant());
    assert!(!branch_preflight("feat/empty", false, 0, 0, 0).all_redundant());
}

#[test]
fn merge_commits_sums_all_branch_reports() {
    let preflight = RebasePreflight {
        branches: vec![
            branch_preflight("feat/a", false, 2, 0, 0),
            branch_preflight("feat/b", true, 3, 0, 1),
        ],
    };

    assert!(preflight.counts_fit());
    assert_eq!(preflight.merge_commits(), 5);
}

#[test]
fn enforce_allows_clean_and_forced_merge_preflights() {
    let clean = RebasePreflight { branches: vec![branch_preflight("feat/clean", true, 0, 0, 1)] };
    enforce("sync", false, &clean).1.expect("clean preflight should pass");

    let forced = RebasePreflight { branches: vec![branch_preflight("feat/merge", true, 1, 0, 0)] };
    enforce("sync", true, &forced).1.expect("forced merge preflight should pass");
}

#[test]
fn enforce_blocks_unforced_merge_preflights() {
    let preflight = RebasePreflight {
        branches: vec![
            branch_preflight("feat/a", true, 0, 0, 1),
            branch_preflight("feat/merge", false, 2, 1, 0),
        ],
    };

    let err = enforce("sync", false, &preflight)
        .1
        .expect_err("unforced merge preflight should be blocked");

    assert!(
        err.message().contains("`ez sync` blocked by merge commits in 1 branch(es)"),
        "unexpected preflight error: {}",
        err.message()
    );
}

fn candidate(branch: &str, destination_tip: &str, old_base: &str, derived: bool) -> RebaseCandidate {
    RebaseCandidate {
        branch: branch.to_string(),
        destination_tip: destination_tip.to_string(),
        old_base: old_base.to_string(),
        derived_base: derived,
    }
}

#[test]
fn inspect_candidates_counts_unique_and_redundant_cherry_commits() {
    let mut repo = Repo::new();
    let base = repo.tip("main");
    repo.branch_at("feat/unique", "main");
    repo.commit("feat/unique", "unique.txt", "unique\n");
    repo.branch_at("feat/redundant", "main");
    repo.commit("feat/redundant", "redundant.txt", "redundant\n");
    repo.commit("main", "main-only.txt", "main only\n");
    let destination_tip = repo.commit("main", "redundant.txt", "redundant\n");

    let candidates = vec![
        candidate("feat/unique", &destination_tip, &base, false),
        candidate("feat/redundant", &destination_tip, &base, true),
    ];
    let facts = candidates
        .iter()
        .map(|c| repo.facts(&c.branch, &c.destination_tip, &c.old_base))
        .collect();
    let preflight = inspect_candidates(&candidates, &facts).expect("inspect candidates");

    assert_eq!(preflight.branches.len(), 2);
    assert_eq!(preflight.branches[0].cherry.unique, 1);
    assert_eq!(preflight.branches[0].cherry.redundant, 0);
    assert_eq!(preflight.branches[1].cherry.unique, 0);
    assert_eq!(preflight.branches[1].cherry.redundant, 1);
    assert!(preflight.branches[1].derived_base);

    let run = preflight::run("sync", false, &candidates, &facts).expect("preflight");
    assert!(run.verdict.is_ok());
    assert_eq!(run.preflight.branches.len(), 2);
    assert!(receipt_line(&run.receipt).contains("\"cmd\":\"sync\""));
}

#[test]
fn cherry_lines_are_counted_by_their_mark() {
    assert_eq!(cherry_stats(""), CherryStats { unique: 0, redundant: 0 });
    assert_eq!(
        cherry_stats("+ aaa\n- bbb\n+ ccc\nnoise\n"),
        CherryStats { unique: 2, redundant: 1 }
    );
    let c = candidate("feat/a", "t", "b", false);
    let facts = CandidateFacts {
        branch_tip: Err("no such branch".to_string()),
        merge_commits: Ok(0),
        cherry: Ok(String::new()),
    };
    assert!(inspect_candidate(&c, &facts).unwrap_err().message().contains("no such branch"));
}

#[test]
fn restack_candidates_skip_missing_branches_and_infer_missing_parents() {
    let mut repo = Repo::new();
    let main_tip = repo.tip("main");
    let mut state = StackState::new("main".to_string());
    repo.branch_at("feat/orphan", "main");
    repo.commit("feat/orphan", "orphan.txt", "orphan\n");
    state.add_branch("feat/missing", "main", &main_tip, None, None);
    state.add_branch("feat/orphan", "gone-parent", "deadbeef", None, None);

    let candidates = restack_candidates(
        &repo.view(),
        &state,
        &vec!["unmanaged".to_string(), "feat/missing".to_string(), "feat/orphan".to_string()],
    );

    assert_eq!(candidates.len(), 1);
    assert_eq!(candidates[0].branch, "feat/orphan");
    assert_eq!(candidates[0].destination_tip, main_tip);
    assert!(candidates[0].derived_base);
    let resolved = resolved_candidate(&repo.view(), &state, "feat/orphan", "gone-parent", "deadbeef")
        .expect("resolved");
    assert_eq!(resolved.parent, "main");
}

#[test]
fn move_candidates_include_descendants_with_resolved_bases() {
    let mut repo = Repo::new();
    let main_tip = repo.tip("main");
    let mut state = StackState::new("main".to_string());
    repo.branch_at("feat/base", "main");
    let base_tip = repo.commit("feat/base", "base.txt", "base\n");
    repo.branch_at("feat/child", "feat/base");
    repo.commit("feat/child", "child.txt", "child\n");
    state.add_branch("feat/base", "main", &main_tip, None, None);
    state.add_branch("feat/child", "feat/base", &base_tip, None, None);

    let candidates = move_candidates(&repo.view(), &state, "feat/base", &Ok(main_tip.clone()))
        .expect("move candidates should resolve");

    assert_eq!(
        candidates.iter().map(|candidate| candidate.branch.as_str()).collect::<Vec<_>>(),
        vec!["feat/base", "feat/child"]
    );
    assert_eq!(candidates[0].destination_tip, main_tip);
    assert_eq!(candidates[1].destination_tip, base_tip);
}

#[test]
fn receipt_value_contains_agent_fields() {
    let conflict = RebaseConflict {
        conflicting_files: vec!["src/a.rs".to_string(), "src/b.rs".to_string()],
        stderr: "CONFLICT (content): Merge conflict in src/a.rs".to_string(),
    };

    let receipt = to_value(&rebase_conflict::receipt_value(
        "sync",
        "feat/test",
        "main",
        &conflict,
        "ez restack",
    ));

    assert_eq!(receipt["cmd"], "sync");
    assert_eq!(receipt["action"], "conflict");
    assert_eq!(receipt["branch"], "feat/test");
    assert_eq!(receipt["parent"], "main");
    assert_eq!(receipt["next_command"], "ez restack");
    assert_eq!(receipt["conflicting_files"][0], "src/a.rs");
    assert_eq!(receipt["conflicting_files"][1], "src/b.rs");
    assert_eq!(receipt["git_stderr"], "CONFLICT (content): Merge conflict in src/a.rs");
}

#[test]
fn report_handles_file_and_multiline_git_details() {
    let conflict = RebaseConflict {
        conflicting_files: vec!["src/a.rs".to_string(), "src/b.rs".to_string()],
        stderr: "first line\nsecond line".to_string(),
    };

    let told = report("sync", "feat/test", "main", &conflict, "ez restack");
    assert_eq!(told.files, vec!["src/a.rs".to_string(), "src/b.rs".to_string()]);
    assert_eq!(told.git_lines, vec!["first line".to_string(), "second line".to_string()]);
    assert_eq!(told.hints.len(), 2);
    assert!(told.hints[1].contains("ez restack"));
}

fn bases(pairs: &[(&str, &str)], target: &str) -> Vec<((String, String), String)> {
    pairs
        .iter()
        .map(|(b, m)| ((b.to_string(), target.to_string()), m.to_string()))
        .collect()
}

fn ordered(pairs: &[(&str, &str)]) -> Vec<(String, String)> {
    pairs.iter().map(|(a, b)| (a.to_string(), b.to_string())).collect()
}

fn best(names: &[&str], merge_bases: &[(&str, &str)], descendants: &[(&str, &str)]) -> String {
    let git = GitView {
        local: Vec::new(),
        tips: Vec::new(),
        bases: bases(merge_bases, "B"),
        ancestors: ordered(descendants),
    };
    let names: Vec<String> = names.iter().map(|n| n.to_string()).collect();
    select_best_parent(&git, "B", "main", "sha_root", &names).branch
}

#[test]
fn defaults_to_trunk_when_no_other_branch_is_a_closer_ancestor() {
    let mb = [("main", "sha_root"), ("feat/a", "sha_root")];
    assert_eq!(best(&["main", "feat/a"], &mb, &[]), "main");
}

#[test]
fn picks_tracked_branch_when_its_merge_base_is_strictly_deeper() {
    let mb = [("main", "sha_root"), ("feat/a", "sha_a")];
    assert_eq!(best(&["main", "feat/a"], &mb, &[("sha_root", "sha_a")]), "feat/a");
}

#[test]
fn picks_deepest_when_multiple_tracked_branches_overlap() {
    let mb = [("main", "sha_root"), ("feat/a", "sha_a"), ("feat/b", "sha_b")];
    let descendants = [("sha_root", "sha_a"), ("sha_root", "sha_b"), ("sha_a", "sha_b")];
    assert_eq!(best(&["main", "feat/a", "feat/b"], &mb, &descendants), "feat/b");
    assert_eq!(best(&["main", "feat/b", "feat/a"], &mb, &descendants), "feat/b");
}

#[test]
fn ignores_sibling_branches_whose_merge_base_is_unrelated_to_target() {
    let mb = [("main", "sha_root"), ("feat/a", "sha_root"), ("feat/c", "sha_root")];
    assert_eq!(best(&["main", "feat/a", "feat/c"], &mb, &[]), "main");
}

#[test]
fn tracking_infers_and_records_the_parent() {
    let mut repo = Repo::new();
    let (mut state, _) = three_deep(&mut repo);
    repo.branch_at("feat/new", "feat/c");
    repo.commit("feat/new", "new.txt", "x\n");
    let git = repo.view();
    assert_eq!(infer_parent(&git, "feat/new", &state).unwrap(), "feat/c");
    assert_eq!(track::run(&state, &git, "feat/new", None).unwrap(), "feat/c");
    assert_eq!(track::run(&state, &git, "feat/new", Some("main".to_string())).unwrap(), "main");
    assert!(track::run(&state, &git, "main", None).is_err());
    assert!(track::run(&state, &git, "feat/c", None).is_err());
    assert!(track::run(&state, &git, "nowhere", None).is_err());
    assert!(track::run(&state, &git, "feat/new", Some("nowhere".to_string())).is_err());
    let base = repo.tip("feat/c");
    let receipt = record(&mut state, "feat/new", "feat/c", Some(base.clone()), 1).unwrap();
    assert_eq!(to_value(&receipt)["branch"], "feat/new");
    assert_eq!(state.get_branch("feat/new").unwrap().parent_head, base);
}

fn moving(
    own: Option<&BranchPreflight>,
    pr: Option<u64>,
    native: Option<NativeStackInfo>,
) -> Moving {
    let mut state = StackState::new("main".to_string());
    state.add_branch("feat/base", "main", "m0", None, None);
    state.add_branch("feat/top", "feat/base", "b0", None, None);
    state.set_pr_number("feat/top", pr).unwrap();
    Moving::begin(&state, "feat/top", "main", "m1", own, native)
}

fn cascaded(m: &Moving, outcome: Result<usize, EzError>) -> MoveReply {
    MoveReply::Cascaded { state: m.state().copy(), outcome }
}

fn stack_of_two() -> Option<NativeStackInfo> {
    Some(NativeStackInfo { number: 5, base_ref: None, open: None, pull_requests: vec![1, 2] })
}

#[test]
fn a_move_replays_only_what_the_new_parent_lacks() {
    let held = branch_preflight("feat/top", false, 0, 0, 2);
    let own = branch_preflight("feat/top", false, 0, 1, 1);
    assert_eq!(move_method(&held), MoveMethod::Align);
    assert_eq!(move_method(&own), MoveMethod::Rebase);
    let found = RebasePreflight { branches: vec![branch_preflight("feat/x", false, 0, 1, 0), held] };
    assert!(own_preflight(&found, "feat/missing").is_none());
    let held = own_preflight(&found, "feat/top").expect("found");
    let m = moving(Some(held), None, None);
    assert_eq!(m.phase(), MovePhase::Align);
    let m = m.step(MoveReply::Done);
    let receipt = to_value(&m.receipts()[0]);
    assert_eq!(receipt["method"], "already_applied");
    assert_eq!(receipt["parent"], "main");
    assert_eq!(receipt["redundant_commits"], 2);
    let meta = m.state().get_branch("feat/top").unwrap();
    assert_eq!((meta.parent.as_str(), meta.parent_head.as_str()), ("main", "m1"));
    assert_eq!(moving(Some(&own), None, None).phase(), MovePhase::Rebase);
}

#[test]
fn a_move_without_a_native_stack_changes_the_base_and_repairs_nothing() {
    let m = moving(None, Some(7), None).step(MoveReply::Done);
    assert_eq!(m.phase(), MovePhase::Base);
    let m = m.step(MoveReply::Failed("gh down".to_string()));
    assert_eq!(m.phase(), MovePhase::Cascade);
    let reply = cascaded(&m, Ok(3));
    let m = m.step(reply);
    assert_eq!(m.phase(), MovePhase::Finished);
    let receipt = to_value(&m.receipts()[0]);
    assert_eq!(receipt["local"], "moved");
    assert_eq!(receipt["from"], "feat/base");
    assert_eq!(receipt["restacked"], 3);
    assert_eq!(receipt["pr_base"]["detail"], "gh down");
    assert!(m.finish().is_ok());
}

#[test]
fn a_move_out_of_a_native_stack_makes_it_anew() {
    let m = moving(None, Some(7), stack_of_two()).step(MoveReply::Done);
    assert_eq!(m.phase(), MovePhase::Cascade, "GitHub would refuse another base");
    let reply = cascaded(&m, Ok(0));
    let m = m.step(reply);
    assert_eq!(m.phase(), MovePhase::Repair);
    let receipt = to_value(&m.receipts()[0]);
    assert_eq!(receipt["pr_base"], "deferred_to_native_stack");
    assert_eq!(receipt["native_stack_before"]["size"], 2);
    let m = m.step(MoveReply::Failed("refused".to_string()));
    assert_eq!(m.finish().unwrap_err().message(), "refused");
}

#[test]
fn a_move_that_leaves_branches_behind_is_not_reported() {
    let m = moving(None, None, stack_of_two()).step(MoveReply::Done);
    let behind = EzError::RestackIncomplete { count: 1, branches: "feat/above".to_string() };
    let reply = cascaded(&m, Err(behind));
    let m = m.step(reply);
    assert_eq!(m.phase(), MovePhase::Failed);
    assert!(m.receipts().is_empty());
    assert!(matches!(m.finish(), Err(EzError::RestackIncomplete { count: 1, .. })));
}

#[test]
fn a_conflicting_move_keeps_the_record_and_names_the_retry() {
    let m = moving(None, None, None).step(MoveReply::Conflict(RebaseConflict {
        conflicting_files: vec!["a.txt".to_string()],
        stderr: "CONFLICT".to_string(),
    }));
    assert_eq!(m.phase(), MovePhase::Failed);
    assert_eq!(m.state().get_branch("feat/top").unwrap().parent, "feat/base");
    assert_eq!(to_value(&m.receipts()[0])["next_command"], "ez move --onto main");
    assert!(matches!(m.finish(), Err(EzError::RebaseConflict(b)) if b == "feat/top"));
}

/// Restacks what a merge of `feat/done` leaves, and pushes what moved: the stack, how many
/// branches moved, and which were pushed.
fn after_merge(repo: &mut Repo, state: &StackState) -> (StackState, usize, Vec<String>) {
    let mut state = state.copy();
    state.add_branch("feat/done", "main", &repo.tip("main"), None, None);
    let done = MergeTarget { branch: "feat/done".to_string(), pr_number: 9 };
    let mut m = Merging::begin(&state, vec![done], NameMap::new(), false);
    let mut restacked = 0;
    let mut pushed = Vec::new();
    loop {
        let reply = match m.phase() {
            MergePhase::Merge => MergeReply::Merged(MergePrOutcome::Merged),
            MergePhase::Look => MergeReply::Branch { there: false, current: false },
            MergePhase::Restack => {
                let order = m.state().topo_order();
                let options = RestackOptions { force: false };
                let restack = restack_branches_with_options(m.state(), order, "merge", options);
                let (state, report, _) = repo.drive(restack).finish();
                restacked = report.restacked;
                MergeReply::Restacked { state, report }
            }
            MergePhase::Push => {
                pushed.push(m.branch().unwrap().clone());
                MergeReply::Done
            }
            MergePhase::Finished => return (m.finish().state, restacked, pushed),
            MergePhase::Failed => panic!("{:?}", m.finish().error),
            _ => MergeReply::Done,
        };
        m = m.step(reply);
    }
}

#[test]
fn merge_fold_extra_fetch_restack_skips_up_to_date_managed_parent() {
    let mut repo = Repo::new();
    let main_head = repo.tip("main");
    repo.branch_at("feat/base", "main");
    let base_head = repo.commit("feat/base", "base.txt", "base\n");
    repo.branch_at("feat/child", "feat/base");
    repo.commit("feat/child", "child.txt", "child\n");
    let mut state = StackState::new("main".to_string());
    state.add_branch("feat/base", "main", &main_head, None, None);
    state.add_branch("feat/child", "feat/base", &base_head, None, None);

    let (state, restacked, pushed) = after_merge(&mut repo, &state);

    assert_eq!(restacked, 0);
    assert!(pushed.is_empty());
    assert_eq!(state.get_branch("feat/child").expect("child").parent_head, base_head);
}

#[test]
fn fetch_restack_survives_a_stack_entry_whose_branch_is_gone_from_git() {
    let mut repo = Repo::new();
    repo.branch_at("feat/live", "main");
    repo.commit("feat/live", "live.txt", "live\n");
    let main_head = repo.tip("main");
    let mut state = StackState::new("main".to_string());
    state.add_branch("feat/ghost", "main", &main_head, None, None);
    state.add_branch("feat/live", "main", &main_head, None, None);
    let main_head2 = repo.commit("main", "trunk.txt", "trunk\n");

    let (state, restacked, pushed) = after_merge(&mut repo, &state);

    assert_eq!(restacked, 1, "the live branch should still be restacked");
    assert_eq!(pushed, vec!["feat/live".to_string()]);
    assert!(repo.is_ancestor("main", "feat/live"));
    assert_eq!(state.get_branch("feat/live").expect("live").parent_head, main_head2);
}
