use vstd::prelude::*;

pub mod config;
pub mod libs;
pub mod server;

verus! {

/// The severity of a log record.
#[derive(PartialEq, Eq, Structural, Clone, Copy, Debug)]
pub enum LogLevel {
    Error,
    Warn,
    Info,
    Debug,
    Trace,
}

/// The terminal colour code in which the level of a record is printed.
pub fn get_level_color(level: LogLevel) -> (color: u8)
    ensures
        color == match level {
            LogLevel::Error => 31u8,
            LogLevel::Warn => 33u8,
            LogLevel::Info => 35u8,
            LogLevel::Debug => 31u8,
            LogLevel::Trace => 34u8,
        },
{
    match level {
        LogLevel::Error => 31,
        LogLevel::Warn => 33,
        LogLevel::Info => 35,
        LogLevel::Debug => 31,
        LogLevel::Trace => 34,
    }
}

/// The terminal background code in which the time of a record is printed.
pub fn get_level_background(level: LogLevel) -> (background: u8)
    ensures
        background == match level {
            LogLevel::Error => 41u8,
            LogLevel::Warn => 43u8,
            LogLevel::Info => 46u8,
            LogLevel::Debug => 40u8,
            LogLevel::Trace => 46u8,
        },
{
    match level {
        LogLevel::Error => 41,
        LogLevel::Warn => 43,
        LogLevel::Info => 46,
        LogLevel::Debug => 40,
        LogLevel::Trace => 46,
    }
}

} // verus!
