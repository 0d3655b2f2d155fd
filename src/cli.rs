//! The command-line arguments of a run, and the log level they ask for.

use vstd::prelude::*;

verus! {

/// The command-line arguments of a run.
#[derive(Debug, Clone)]
pub struct Args {
    /// Path to the configuration file.
    pub config: Option<String>,
    /// The secret signing key; it takes precedence over the configuration's.
    pub signing_key: Option<String>,
    /// The password that unlocks the secret signing key.
    pub signing_key_password: String,
    /// How many times more verbose than the default to log.
    pub verbose: u8,
    /// How many times quieter than the default to log; it overrides `verbose`.
    pub quiet: u8,
    /// Assume "yes" to every question.
    pub no_confirm: bool,
    /// Pass `--locked` when installing tools.
    pub locked: bool,
    /// Pass `--force` when installing tools.
    pub force: bool,
}

/// How much a run logs.
#[derive(Debug, Clone, Copy, PartialEq, Eq, Structural)]
pub enum LogLevel {
    Off,
    Error,
    Warn,
    Info,
    Debug,
    Trace,
}

/// The log level for the counts of `-v` and `-q`: information by default, each
/// `-v` one level more detailed up to trace, each `-q` one level quieter down to
/// off, where further `-q` leave it; any `-q` overrides `-v`.
pub open spec fn log_level_spec(verbose: u8, quiet: u8) -> LogLevel {
    if quiet == 0 {
        if verbose == 0 {
            LogLevel::Info
        } else if verbose == 1 {
            LogLevel::Debug
        } else {
            LogLevel::Trace
        }
    } else if quiet == 1 {
        LogLevel::Warn
    } else if quiet == 2 {
        LogLevel::Error
    } else {
        LogLevel::Off
    }
}

/// The log level the arguments ask for.
pub fn log_level(verbose: u8, quiet: u8) -> (r: LogLevel)
    ensures
        r == log_level_spec(verbose, quiet),
{
    match quiet {
        0 => match verbose {
            0 => LogLevel::Info,
            1 => LogLevel::Debug,
            _ => LogLevel::Trace,
        },
        1 => LogLevel::Warn,
        2 => LogLevel::Error,
        _ => LogLevel::Off,
    }
}

} // verus!
