//! Core of `autorize`, an iterative-improvement harness: it runs an agent in
//! throw-away git worktrees, scores what the agent did, keeps improvements and
//! discards regressions until a deadline fires.
//!
//! The crate holds everything the harness decides and renders. Processes, files
//! and clocks belong to the program around it, which hands plain values in and
//! acts on the plain values it gets back.

pub mod text;
pub mod big;
pub mod score;
pub mod error;
pub mod time;
pub mod env_map;
pub mod config;
pub mod experiment;
pub mod templates;
pub mod storage;
pub mod subproc;
pub mod scoring;
pub mod agent;
pub mod worktree;
pub mod schedule;
pub mod prompt;
pub mod shortest;
pub mod iteration;
pub mod cli;
pub mod lock;
