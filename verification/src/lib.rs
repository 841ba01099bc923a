//! Verified core of a personal music-import tool.
//!
//! The library discovers candidate audio files in shared directories,
//! keeps a durable ledger of what was already imported, resolves
//! metadata-driven destination paths with collision-safe version
//! suffixes, and plans each per-file import step. All filesystem,
//! probing and scheduling side effects stay outside the library; it
//! works on plain values handed in by its callers.

pub mod config;
pub mod engine;
pub mod laws;
pub mod ledger;
pub mod logs;
pub mod order;
pub mod paths;
pub mod resolve;
pub mod schedule;
pub mod strings;
pub mod tags;

use vstd::prelude::*;

verus! {

/// Severity of a log line emitted by the surrounding application.
#[derive(Debug, Clone, Copy, PartialEq, Eq, Structural)]
pub enum LogLevel {
    Info,
    Warning,
    Error,
}

impl LogLevel {
    /// The upper-case label the log format uses for this level.
    pub fn label(&self) -> (r: &'static str)
        ensures
            *self == LogLevel::Info ==> r@ == "INFO"@,
            *self == LogLevel::Warning ==> r@ == "WARNING"@,
            *self == LogLevel::Error ==> r@ == "ERROR"@,
    {
        match self {
            LogLevel::Info => "INFO",
            LogLevel::Warning => "WARNING",
            LogLevel::Error => "ERROR",
        }
    }
}

/// Name under which the tool stores its configuration and state.
pub fn get_app_name() -> (r: &'static str)
    ensures
        r@ == "tsundeoku"@,
{
    "tsundeoku"
}

} // verus!
