//! Verified core of the qwobot Discord bot: command statistics, prompt
//! template tracking, and the text that each command replies with.

pub mod commands;
pub mod config;
pub mod error;
pub mod error_replies;
pub mod prompt_watcher;
pub mod stats;
pub mod stats_history;
pub mod text;
