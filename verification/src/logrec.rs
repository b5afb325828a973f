//! Structured logging: every log message of the system is a typed
//! value; `log` turns one into a flat record for whatever sink the
//! process writes to.

use vstd::prelude::*;
use vstd::string::StrSliceExecFns;

verus! {

/// The severity of a log record.
#[derive(Clone, Copy, PartialEq, Eq, Structural, Debug)]
pub enum LogLevel {
    Trace,
    Debug,
    Info,
    Warn,
    Error,
}

/// The "target" field every structured record of this system carries.
pub const SLOG_TARGET: &'static str = "ark-slog";

/// A typed, structured log message.
pub trait LogMsg {
    /// The stable identifier of this message type.
    fn logid(&self) -> &'static str;

    /// The severity of this message type.
    fn level(&self) -> LogLevel;

    /// The human-readable message.
    fn message(&self) -> &'static str;
}

/// A flat log record, ready for a sink.
pub struct LogRecord {
    pub target: &'static str,
    pub logid: &'static str,
    pub level: LogLevel,
    pub message: &'static str,
    pub module: String,
    pub file: String,
    pub line: u32,
}

/// Turn a structured message and its source position into a record.
/// The record carries the fixed structured-logging target, the
/// message's own identifier, severity and text, and the position.
pub fn log<T: LogMsg>(obj: &T, module: &str, file: &str, line: u32) -> (r: LogRecord)
    ensures
        r.target@ == SLOG_TARGET@,
        r.module@ == module@,
        r.file@ == file@,
        r.line == line,
{
    LogRecord {
        target: SLOG_TARGET,
        logid: obj.logid(),
        level: obj.level(),
        message: obj.message(),
        module: module.to_owned(),
        file: file.to_owned(),
        line,
    }
}

} // verus!
