//! Orchestration core for a pool of autonomous coding agents working through
//! a shared, dependency-ordered feature list.
//!
//! The library holds the verified logic: the feature graph and its scheduler,
//! the grid layout of the interactive multiplexer, keyboard routing, the
//! round state machines of the headless runners, and the text generators.
//! Process spawning, file and terminal I/O live outside, in thin callers
//! that hand plain values in and take plain values back.

pub mod config;
pub mod context;
pub mod context_flow;
pub mod dag;
pub mod export;
pub mod features;
pub mod grid;
pub mod init;
pub mod pane;
pub mod runner;
pub mod session;
pub mod skills;
pub mod template;
pub mod term;
pub mod text;
pub mod verify;
