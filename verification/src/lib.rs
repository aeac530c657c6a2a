//! Core of a directory-activated shell-environment manager: it parses dumps
//! of shell state into snapshots, diffs two snapshots into report and restore
//! statements, and reconciles a stack of loaded per-directory configuration
//! files against the directories implied by a working directory.

pub mod environment;
pub mod file;
pub mod names;
pub mod parse;
pub mod text;
