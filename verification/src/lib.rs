//! Verified core logic of GN's Starlark integration.

pub mod args;
pub mod attr;
pub mod attr_value;
pub mod depset;
pub mod eval_context;
pub mod loader;
pub mod providers;
pub mod rule;
pub mod seqs;
pub mod text;
pub mod types;
