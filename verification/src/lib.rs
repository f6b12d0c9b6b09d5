//! Verified core of a desktop AI coding assistant: chat state, activity log,
//! knowledge-base ranking, cargo/rustup output handling and the edit workflow.
pub mod activity_log;
pub mod aider;
pub mod app_state;
pub mod cargo;
pub mod config;
pub mod files;
pub mod kb;
pub mod text;
