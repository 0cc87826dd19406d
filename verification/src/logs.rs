//! The live device log: level names, the lines sent to the interface, and
//! when a failing stream gives up.
use vstd::prelude::*;

use crate::text::copy_str;
use crate::types::{DeviceLog, StreamStatus};

verus! {

/// Consecutive read errors after which the log stream stops.
pub const MAX_CONSECUTIVE_LOG_ERRORS: u8 = 12;

/// The level of a log entry.
#[derive(Debug)]
pub enum LogLevel {
    Notice,
    Info,
    Debug,
    Error,
    Fault,
}

/// The name a level is shown with.
pub open spec fn spec_level_name(level: LogLevel) -> Seq<char> {
    match level {
        LogLevel::Notice => "NOTICE"@,
        LogLevel::Info => "INFO"@,
        LogLevel::Debug => "DEBUG"@,
        LogLevel::Error => "ERROR"@,
        LogLevel::Fault => "FAULT"@,
    }
}

/// The name a level is shown with.
pub fn level_name(level: LogLevel) -> (r: &'static str)
    ensures
        r@ == spec_level_name(level),
{
    match level {
        LogLevel::Notice => "NOTICE",
        LogLevel::Info => "INFO",
        LogLevel::Debug => "DEBUG",
        LogLevel::Error => "ERROR",
        LogLevel::Fault => "FAULT",
    }
}

/// One log line for the interface; the subsystem and category come from the
/// entry's label, when it has one.
pub fn device_log(
    timestamp: String,
    level: LogLevel,
    process: String,
    pid: u32,
    message: String,
    label: Option<(String, String)>,
) -> (l: DeviceLog)
    ensures
        l.timestamp@ == timestamp@,
        l.level@ == spec_level_name(level),
        l.process@ == process@,
        l.pid == pid,
        l.message@ == message@,
        l.subsystem.deep_view() == (match label {
            Some((s, _)) => Some(s@),
            None => None,
        }),
        l.category.deep_view() == (match label {
            Some((_, c)) => Some(c@),
            None => None,
        }),
{
    let (subsystem, category) = match label {
        Some((s, c)) => (Some(s), Some(c)),
        None => (None, None),
    };
    DeviceLog {
        timestamp,
        level: copy_str(level_name(level)),
        process,
        pid,
        message,
        subsystem,
        category,
    }
}

/// Counts read errors in a row; a line read resets the count.
#[derive(Debug)]
pub struct LogErrorCounter {
    consecutive: u8,
}

impl LogErrorCounter {
    pub closed spec fn count(&self) -> u8 {
        self.consecutive
    }

    pub fn new() -> (c: LogErrorCounter)
        ensures
            c.count() == 0,
    {
        LogErrorCounter { consecutive: 0 }
    }

    /// A line arrived.
    pub fn line_read(&mut self)
        ensures
            final(self).count() == 0,
    {
        self.consecutive = 0;
    }

    /// A read failed; true when the stream should give up.
    pub fn read_failed(&mut self) -> (stop: bool)
        ensures
            final(self).count() == (if old(self).count() == u8::MAX {
                u8::MAX
            } else {
                (old(self).count() + 1) as u8
            }),
            stop == (final(self).count() >= MAX_CONSECUTIVE_LOG_ERRORS),
    {
        if self.consecutive < u8::MAX {
            self.consecutive = self.consecutive + 1;
        }
        self.consecutive >= MAX_CONSECUTIVE_LOG_ERRORS
    }
}

/// The status of the log stream.
pub fn log_status(state: &str, message: Option<String>) -> (s: StreamStatus)
    ensures
        s.stream@ == "logs"@,
        s.state@ == state@,
        s.message.deep_view() == message.deep_view(),
{
    StreamStatus { stream: copy_str("logs"), state: copy_str(state), message }
}

} // verus!
