//! What can be asked on the command line.

use crate::branch_map::ScopeMode;
use vstd::prelude::*;

verus! {

/// A request.
#[derive(Debug)]
pub struct Cli {
    pub command: Commands,
}

/// The commands.
#[derive(Debug)]
pub enum Commands {
    /// Initialize ez in the current git repository
    Init {
        /// Trunk branch name (auto-detected if not provided)
        trunk: Option<String>,
        /// Accept recommended defaults without prompting
        yes: bool,
    },
    /// Adopt GitHub PR stacks or explicit local/remote branches into the local stack
    Adopt {
        /// Adopt the chain for a specific PR number
        pr: Option<u64>,
        /// Track branches without creating local worktrees
        no_worktrees: bool,
        /// Explicit branch chain to adopt, bottom-to-top
        branches: Vec<String>,
    },
    /// Create a new stacked branch (worktree by default)
    Create {
        name: String,
        /// Commit selected changes with this message
        message: Option<String>,
        /// Stage all tracked changes before committing
        all: bool,
        /// Stage all changes, including untracked files, before committing
        all_files: bool,
        /// Create the branch from this base instead of the current branch
        from: Option<String>,
        /// Create a branch only (no worktree)
        no_worktree: bool,
        /// Patterns for files this branch is intended to touch
        scope: Vec<String>,
        /// Scope enforcement mode when scope is configured
        scope_mode: Option<ScopeMode>,
        /// Run a specific post-create hook, or list available hooks where empty
        hook: Option<String>,
    },
    /// Commit selected changes and auto-restack children
    Commit {
        /// The paragraphs of the message
        message: Vec<String>,
        /// Stage all tracked changes before committing
        all: bool,
        /// Stage all changes, including untracked files, before committing
        all_files: bool,
        /// Do nothing if there is nothing to commit
        if_changed: bool,
        /// Stage only these paths before committing
        paths: Vec<String>,
    },
    /// Amend the current commit and auto-restack children
    Amend {
        /// New commit message (keeps existing if not provided)
        message: Option<String>,
        /// Stage all changes before amending
        all: bool,
    },
    /// Push the current branch and create/update its PR
    Push {
        /// Create a draft PR
        draft: bool,
        /// Override draft config to create a ready-for-review PR
        no_draft: bool,
        /// Push the branch without creating or updating a PR
        no_pr: bool,
        /// Create/update a PR even when config no_pr is true
        pr: bool,
        /// PR title (defaults to first commit message)
        title: Option<String>,
        /// PR body text
        body: Option<String>,
        /// PR body from file
        body_file: Option<String>,
        /// Override the PR base branch
        base: Option<String>,
        /// Push all branches in the stack
        stack: bool,
        /// Stage all tracked changes before committing
        stage_all: bool,
        /// Stage all changes, including untracked files, before committing
        stage_all_files: bool,
        /// Commit with this message before pushing
        message: Option<String>,
        /// Override the push remote
        remote: Option<String>,
        /// Override the GitHub repo of the PR
        repo: Option<String>,
        /// Override the GitHub repo of the fork
        fork_repo: Option<String>,
    },
    /// Push and create/update PRs for the entire stack
    Submit {
        /// Create draft PRs (only affects new PRs, not existing ones)
        draft: bool,
        /// Override draft config to create ready-for-review PRs
        no_draft: bool,
        /// PR title (defaults to first commit message)
        title: Option<String>,
        /// PR body text
        body: Option<String>,
        /// PR body from file
        body_file: Option<String>,
        /// Override the push remote
        remote: Option<String>,
        /// Override the GitHub repo of the PRs
        repo: Option<String>,
        /// Override the GitHub repo of the fork
        fork_repo: Option<String>,
    },
    /// Fetch trunk, detect merged PRs, clean up, and restack
    Sync {
        /// Show what sync would do without making changes
        dry_run: bool,
        /// Stash uncommitted changes before sync and restore after
        autostash: bool,
        /// Force-remove worktrees and branches even if they have uncommitted changes
        force: bool,
        /// Dissolve and recreate native stacks that diverged
        repair_native_stack: bool,
    },
    /// Fetch trunk, refresh it locally, and rebase stale branches onto their latest parent tips
    Restack {
        /// Rebase branches with merge commits too
        force: bool,
    },
    /// Turn each commit of a branch into a branch of its own
    Split {
        /// Branch to split (defaults to current branch)
        branch: Option<String>,
        /// Prefix of the new names (defaults to the branch)
        prefix: Option<String>,
        /// Show the layers without making them
        dry_run: bool,
    },
    /// Move up one branch in the stack (toward child branches)
    Up {
        /// Child branch name or PR number
        branch: Option<String>,
    },
    /// Move down one branch in the stack (toward trunk)
    Down {
        /// Parent branch name
        branch: Option<String>,
    },
    /// Move to the top of the stack
    Top,
    /// Move to the bottom of the stack (first branch above trunk)
    Bottom,
    /// Switch to a branch by name or PR number (interactive if no argument)
    Switch {
        /// Branch name or PR number to switch to directly
        name: Option<String>,
        /// Print the target path without requiring shell integration to cd there
        no_cd_required: bool,
    },
    /// Show the visual stack tree with PR status
    Log {
        /// Output stack as JSON to stdout
        json: bool,
        /// Compare with GitHub's native stacks
        native_stack: bool,
    },
    /// Show current branch info and stack position
    Status {
        /// Output status as JSON to stdout
        json: bool,
    },
    /// List all local branches, including untracked ones
    List {
        /// Output as JSON to stdout
        json: bool,
    },
    /// Show diff of current branch vs its parent
    Diff {
        /// Show only the diffstat summary
        stat: bool,
        /// Show only changed file names
        name_only: bool,
    },
    /// Print the parent branch name to stdout
    Parent,
    /// Start tracking an existing local branch in the ez stack
    Track {
        /// Branch to track (defaults to current branch)
        branch: Option<String>,
        /// Parent branch (defaults to closest tracked ancestor by merge-base, else trunk)
        parent: Option<String>,
    },
    /// Delete a branch (and its worktree if present) and reparent its children
    Delete {
        /// Branch to delete (defaults to current branch)
        branch: Option<String>,
        /// Force delete even if not merged
        force: bool,
        /// Skip confirmation when deleting a worktree you are inside
        yes: bool,
    },
    /// Fold one local stack layer down into its parent without rewriting commits
    Fold {
        /// Branch to fold into its parent (defaults to current branch)
        branch: Option<String>,
        /// Skip confirmation prompt
        yes: bool,
    },
    /// Move (reparent) the current branch onto another branch
    Move {
        /// New parent branch
        onto: Option<String>,
        /// Rebase branches with merge commits too
        force: bool,
    },
    /// Merge the bottom PR via GitHub
    Merge {
        /// Merge method: merge, squash, or rebase
        method: String,
        /// Skip confirmation prompt
        yes: bool,
        /// Merge the current linear stack bottom-to-top
        stack: bool,
    },
    /// Edit the PR for the current branch
    PrEdit {
        /// New PR title
        title: Option<String>,
        /// New PR body text
        body: Option<String>,
        /// New PR body from file
        body_file: Option<String>,
    },
    /// Mark the current branch's PR as a draft
    Draft,
    /// Mark the current branch's PR as ready for review
    Ready,
    /// Print the PR URL for the current branch to stdout
    PrLink,
    /// Open the current branch's PR in the browser
    Pr,
    /// Update ez to the latest version
    Update {
        /// Install a specific version
        version: Option<String>,
        /// Check for updates without installing
        check: bool,
    },
    /// Configure shell integration (PATH + auto-cd for worktrees)
    Setup {
        /// Skip confirmation
        yes: bool,
    },
    /// Manage the current branch's scope configuration
    Scope(ScopeArgs),
    /// Install or manage the ez-workflow skill for AI agents
    Skill(SkillArgs),
    /// Print shell integration code
    ShellInit,
    /// View and update ez settings for the current repo
    Config(ConfigArgs),
    /// Manage git worktrees
    Worktree(WorktreeArgs),
}

/// A request about a branch's scope.
#[derive(Debug)]
pub struct ScopeArgs {
    pub command: ScopeCommands,
}

/// What can be asked about a branch's scope.
#[derive(Debug)]
pub enum ScopeCommands {
    /// Show the current branch's configured scope
    Show,
    /// Add one or more patterns to the current branch's scope
    Add { mode: Option<ScopeMode>, patterns: Vec<String> },
    /// Replace the current branch's scope with new patterns
    SetPatterns { mode: Option<ScopeMode>, patterns: Vec<String> },
    /// Clear the current branch's scope configuration
    Clear,
}

/// A request about settings.
#[derive(Debug)]
pub struct ConfigArgs {
    pub command: ConfigCommands,
}

/// What can be asked about settings.
#[derive(Debug)]
pub enum ConfigCommands {
    /// List all config settings
    List,
    /// Get the value of a config key
    Get { key: String },
    /// Set a config key to a new value
    SetValue { key: String, value: String },
    /// Take a config key back
    Unset { key: String },
}

/// A request about worktrees.
#[derive(Debug)]
pub struct WorktreeArgs {
    pub command: WorktreeCommands,
}

/// What can be asked about worktrees.
#[derive(Debug)]
pub enum WorktreeCommands {
    /// Create a stacked branch and check it out in a new worktree
    Create {
        name: String,
        /// Base branch to stack on (defaults to current branch)
        from: Option<String>,
    },
    /// Remove a worktree and its branch from the stack
    Delete {
        name: String,
        /// Force-remove even if the worktree has uncommitted changes
        force: bool,
        /// Skip confirmation when deleting the worktree you are currently in
        yes: bool,
    },
    /// List all worktrees with their name, branch, and path
    List,
    /// Claim a linked worktree for one agent without changing stack or branch state
    Claim {
        /// Managed branch to claim (defaults to the current branch)
        branch: Option<String>,
        /// Stable agent or developer identity
        owner: String,
        /// Lease duration: a positive integer followed by s, m, h, or d
        ttl: String,
        /// Replace an expired ez lease
        break_stale: bool,
        /// Print the claim as JSON to stdout
        json: bool,
    },
    /// Release an ez lease while preserving foreign Git worktree locks
    Release {
        /// Managed branch to release (defaults to the current branch)
        branch: Option<String>,
        /// Owner expected to hold the lease
        owner: Option<String>,
        /// Release an ez lease held by another owner
        force: bool,
        /// Print the release result as JSON to stdout
        json: bool,
    },
    /// Show lease and foreign-lock state for every linked stack worktree
    Leases { json: bool },
    /// Ensure every managed branch has a worktree without moving existing checkouts
    Ensure {
        /// Managed branches to ensure; defaults to every managed non-trunk branch
        branches: Vec<String>,
        /// Report what would change without creating worktrees
        dry_run: bool,
        /// Print a deterministic JSON report to stdout
        json: bool,
    },
    /// Execute one command in each selected stack worktree, parent-first
    Exec {
        /// Managed branches to run in (defaults to the whole stack)
        branches: Vec<String>,
        /// Continue through the remaining worktrees after a command fails
        keep_going: bool,
        /// Capture command output and print a deterministic JSON report
        json: bool,
        /// Command and arguments to execute directly
        command: Vec<String>,
    },
}

/// A request about the agents' skill.
#[derive(Debug)]
pub struct SkillArgs {
    pub command: SkillCommands,
}

/// What can be asked about the agents' skill.
#[derive(Debug)]
pub enum SkillCommands {
    /// Install the ez-workflow skill into this repo's .agents/skills/ with agent-specific symlinks
    Install,
    /// Remove the ez-workflow skill from this repo
    Uninstall,
}

} // verus!
