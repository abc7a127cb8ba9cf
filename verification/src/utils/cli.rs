//! The command line and the logging settings it selects.
use vstd::prelude::*;
use crate::types::FILE_LOG;

verus! {

/// The command line: how verbose to be, and which program to run.
#[derive(Debug)]
pub struct Cli {
    pub verbose: usize,
    pub command: Option<Commands>,
}

/// The programs: the server bound to an address, or a client with its name
/// and server.
#[derive(Debug)]
pub enum Commands {
    Server { bind: String },
    Client { login: String, server: String },
}

/// How much the log records.
#[derive(PartialEq, Eq, Structural, Clone, Copy, Debug)]
pub enum LogLevel {
    Info,
    Warn,
    Error,
    Off,
}

/// The log level for a verbosity count: up to once verbose records
/// everything from information on, twice warnings, three times errors, and
/// more turns the log off.
pub fn log_level(verbose: usize) -> (l: LogLevel)
    ensures
        verbose <= 1 ==> l == LogLevel::Info,
        verbose == 2 ==> l == LogLevel::Warn,
        verbose == 3 ==> l == LogLevel::Error,
        verbose > 3 ==> l == LogLevel::Off,
{
    if verbose <= 1 {
        LogLevel::Info
    } else if verbose == 2 {
        LogLevel::Warn
    } else if verbose == 3 {
        LogLevel::Error
    } else {
        LogLevel::Off
    }
}

/// Whether a log file of `len` bytes is put aside before logging starts.
pub fn should_rotate_log(len: u64) -> (b: bool)
    ensures
        b == (len > 2_000_000),
{
    len > 2_000_000
}

/// The name under which the old log is put aside.
pub fn old_log_name() -> (r: String)
    ensures
        r@ == FILE_LOG@ + ".old"@,
{
    let mut s = FILE_LOG.to_owned();
    s.append(".old");
    s
}

} // verus!
