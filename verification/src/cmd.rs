//! The commands.

pub mod adopt;
pub mod adoption;
pub mod amend;
pub mod autostash;
pub mod branch;
pub mod cascade;
pub mod checkout;
pub mod commit;
pub mod committing;
pub mod config;
pub mod create;
pub mod delete;
pub mod delete_worktree;
pub mod quarantine;
pub mod diff;
pub mod draft;
pub mod fold;
pub mod folding;
pub mod init;
pub mod list;
pub mod log;
pub mod merge;
pub mod merge_series;
pub mod merging;
pub mod move_branch;
pub mod moving;
pub mod mutation_guard;
pub mod native_stack;
pub mod navigate;
pub mod parent;
pub mod pr_edit;
pub mod pr_link;
pub mod pr_view;
pub mod preflight;
pub mod push;
pub mod pushing;
pub mod rebase_conflict;
pub mod restack;
pub mod restack_again;
pub mod setup;
pub mod skill;
pub mod split;
pub mod submit;
pub mod sync;
pub mod sync_cleanup;
pub mod sync_finalize;
pub mod sync_native;
pub mod sync_prune;
pub mod track;
