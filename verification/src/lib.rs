//! Deferred job scheduling for a voice-chat moderation bot.
//!
//! The library keeps the pending jobs of every guild, resolves the time
//! expressions of scheduling requests into UTC instants, and decides what the
//! dispatcher loop does at each step. Every function carries a contract that
//! Verus proves.

pub mod command_utils;
pub mod display;
pub mod handler;
pub mod job;
pub mod menu;
pub mod resolver;
pub mod runner;
pub mod settings;
pub mod store;
pub mod text;
pub mod timeexpr;
pub mod timezone;
