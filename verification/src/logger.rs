//! The logging sink: which messages pass the configured verbosity, and how
//! each severity is prefixed and routed.

use vstd::prelude::*;

verus! {

/// The severity of one log message, most severe first.
#[derive(Copy, Clone, PartialEq, Eq, Structural, Debug)]
pub enum LogLevel {
    Error,
    Warn,
    Info,
    Debug,
    Trace,
}

/// The rank of a severity: a message passes when its rank does not exceed
/// the configured one.
pub open spec fn level_rank(l: LogLevel) -> int {
    match l {
        LogLevel::Error => 1,
        LogLevel::Warn => 2,
        LogLevel::Info => 3,
        LogLevel::Debug => 4,
        LogLevel::Trace => 5,
    }
}

/// The prefix written before a message of this severity.
pub open spec fn spec_level_prefix(l: LogLevel) -> Seq<char> {
    match l {
        LogLevel::Error => "error: "@,
        LogLevel::Warn => "warning: "@,
        LogLevel::Info => Seq::empty(),
        LogLevel::Debug => "debug: "@,
        LogLevel::Trace => "debug: "@,
    }
}

/// Whether a message of this severity goes to standard error; informational
/// messages go to standard output.
pub open spec fn spec_to_stderr(l: LogLevel) -> bool {
    !(l is Info)
}

/// An explicit logging sink, constructed once per invocation.
pub struct Logger {
    level: LogLevel,
}

/// The mathematical value of a `Logger`.
pub ghost struct LoggerView {
    pub level: LogLevel,
}

impl View for Logger {
    type V = LoggerView;

    closed spec fn view(&self) -> LoggerView {
        LoggerView { level: self.level }
    }
}

/// Builds the logging sink for one invocation at the given verbosity.
pub fn init(level: LogLevel) -> (r: Logger)
    ensures
        r@.level == level,
{
    Logger { level }
}

impl Logger {
    /// Whether a message of the given severity passes the configured
    /// verbosity.
    pub fn enabled(&self, level: LogLevel) -> (r: bool)
        ensures
            r == (level_rank(level) <= level_rank(self@.level)),
    {
        let rank: u8 = match level {
            LogLevel::Error => 1,
            LogLevel::Warn => 2,
            LogLevel::Info => 3,
            LogLevel::Debug => 4,
            LogLevel::Trace => 5,
        };
        let mine: u8 = match self.level {
            LogLevel::Error => 1,
            LogLevel::Warn => 2,
            LogLevel::Info => 3,
            LogLevel::Debug => 4,
            LogLevel::Trace => 5,
        };
        rank <= mine
    }

    /// The line to write for a message, and whether it goes to standard
    /// error, or nothing when the severity does not pass the verbosity.
    pub fn format_line(&self, level: LogLevel, msg: &str) -> (r: Option<(bool, String)>)
        ensures
            (match r {
                Some(line) => {
                    &&& level_rank(level) <= level_rank(self@.level)
                    &&& line.0 == spec_to_stderr(level)
                    &&& line.1@ == spec_level_prefix(level) + msg@
                },
                None => level_rank(level) > level_rank(self@.level),
            }),
    {
        if !self.enabled(level) {
            return None;
        }
        let mut line = match level {
            LogLevel::Error => String::from_str("error: "),
            LogLevel::Warn => String::from_str("warning: "),
            LogLevel::Info => String::new(),
            LogLevel::Debug => String::from_str("debug: "),
            LogLevel::Trace => String::from_str("debug: "),
        };
        line.append(msg);
        let to_stderr = match level {
            LogLevel::Info => false,
            _ => true,
        };
        Some((to_stderr, line))
    }
}

} // verus!
