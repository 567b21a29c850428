//! Reading the command line's log level.
use vstd::prelude::*;

use crate::text::eq_ignore_ascii_case;

verus! {

/// The most verbose kind of log message that is still shown.
#[derive(Clone, Copy, Debug, PartialEq, Eq, Structural)]
pub enum LogLevel {
    Off,
    Error,
    Warn,
    Info,
    Debug,
    Trace,
}

/// The level whose name is `s`, letters compared without regard to case.
pub open spec fn spec_log_level_named(s: Seq<char>) -> Option<LogLevel> {
    if eq_ignore_ascii_case(s, "OFF"@) {
        Some(LogLevel::Off)
    } else if eq_ignore_ascii_case(s, "ERROR"@) {
        Some(LogLevel::Error)
    } else if eq_ignore_ascii_case(s, "WARN"@) {
        Some(LogLevel::Warn)
    } else if eq_ignore_ascii_case(s, "INFO"@) {
        Some(LogLevel::Info)
    } else if eq_ignore_ascii_case(s, "DEBUG"@) {
        Some(LogLevel::Debug)
    } else if eq_ignore_ascii_case(s, "TRACE"@) {
        Some(LogLevel::Trace)
    } else {
        None
    }
}

/// Calls log's `<LevelFilter as FromStr>::from_str` and tells its variants
/// apart. The crate compares the text, ASCII case ignored, with the names
/// OFF, ERROR, WARN, INFO, DEBUG and TRACE in turn and fails when none
/// matches; the contract claims exactly that.
#[verifier::external_body]
fn level_filter_from_str(value: &str) -> (level: Option<LogLevel>)
    ensures
        level == spec_log_level_named(value@),
{
    match value.parse::<log::LevelFilter>() {
        Ok(log::LevelFilter::Off) => Some(LogLevel::Off),
        Ok(log::LevelFilter::Error) => Some(LogLevel::Error),
        Ok(log::LevelFilter::Warn) => Some(LogLevel::Warn),
        Ok(log::LevelFilter::Info) => Some(LogLevel::Info),
        Ok(log::LevelFilter::Debug) => Some(LogLevel::Debug),
        Ok(log::LevelFilter::Trace) => Some(LogLevel::Trace),
        Err(_) => None,
    }
}

/// Reads the `--log-level` argument.
pub fn parse_log_level(value: &str) -> (r: Result<LogLevel, String>)
    ensures
        match spec_log_level_named(value@) {
            Some(level) => r == Ok::<LogLevel, String>(level),
            None => r matches Err(message) && message@ == "invalid log level: "@ + value@,
        },
{
    match level_filter_from_str(value) {
        Some(level) => Ok(level),
        None => {
            let mut message = String::from_str("invalid log level: ");
            message.append(value);
            Err(message)
        },
    }
}

} // verus!
