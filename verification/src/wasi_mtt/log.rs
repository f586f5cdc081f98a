use crate::wasi_mtt::ctx::Context;
use crate::wasi_mtt::error::{Cause, Error, ErrorKind};
use crate::wasi_mtt::pledge::{permits, Promises};
use vstd::prelude::*;

verus! {

/// How important a log line is.
#[derive(Debug, Clone, Copy, PartialEq, Eq, Structural)]
pub enum LogLevel {
    Trace,
    Debug,
    Info,
    Warn,
    Error,
}

/// A line for the host's log.
#[derive(Debug, Clone, PartialEq, Eq)]
pub struct LogRecord {
    pub level: LogLevel,
    pub message: String,
}

impl Context {
    /// Hands back the line that the host is to write to its log, at the
    /// level and with the text that the extension gave. Needs the stdio
    /// permission.
    pub fn log(&mut self, level: LogLevel, str: String) -> (r: Result<LogRecord, Error>)
        ensures
            *final(self) == *old(self),
            match r {
                Ok(record) => {
                    &&& permits(old(self).promises, Promises::stdio())
                    &&& record.level == level
                    &&& record.message == str
                },
                Err(e) => {
                    &&& !permits(old(self).promises, Promises::stdio())
                    &&& e.cause == Cause::Kind(ErrorKind::Perm)
                },
            },
    {
        self.require(Promises::stdio())?;
        Ok(LogRecord { level, message: str })
    }
}

} // verus!
