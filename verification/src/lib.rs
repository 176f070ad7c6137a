//! Execution-and-repair engine for a chat-driven shell assistant.
//!
//! An incoming instruction is classified (by an external advisory service)
//! into either a direct answer or an ordered plan of shell actions.  This
//! crate holds the verified core that drives such a plan: sequential
//! execution with a fail-fast guarantee, a bounded repair loop that turns
//! free-text fix suggestions into commands, extraction of media artifacts
//! from command output, and the two special-cased plan rewrites (screen
//! capture device discovery and the slide-deck generation bypass).
//! All I/O — running processes, talking to the advisory service, chat
//! transport — stays outside, driven by thin unverified glue.

pub mod artifacts;
pub mod chat;
pub mod config;
pub mod device;
pub mod dispatch;
pub mod model;
pub mod repair;
pub mod runner;
pub mod skills;
pub mod slides;
pub mod suggestion;
pub mod text;
