//! Decision logic for managing stacks of dependent pull requests.

pub mod branch_map;
pub mod cli;
pub mod cmd;
pub mod error;
pub mod git;
pub mod github;
pub mod json;
pub mod name_map;
pub mod names;
pub mod scope;
pub mod stack;
pub mod stack_body;
pub mod text;
