//! The logging filter: each response is logged at a level chosen by its
//! status code.
use vstd::prelude::*;

verus! {

/// The logging filter. Requests are logged at debug level, responses at
/// error, warn or info level for a 5xx, 4xx or other status.
pub struct Log;

/// The level at which a response is logged.
#[derive(Debug, Clone, Copy, PartialEq, Eq, Structural)]
pub enum LogLevel {
    Error,
    Warn,
    Info,
}

/// The level for a response with status code `status`: error for a server
/// error (500 to 599), warn for a client error (400 to 499), info otherwise.
pub fn response_level(status: u16) -> (r: LogLevel)
    ensures
        500 <= status <= 599 ==> r == LogLevel::Error,
        400 <= status <= 499 ==> r == LogLevel::Warn,
        !(400 <= status <= 599) ==> r == LogLevel::Info,
{
    if 500 <= status && status <= 599 {
        LogLevel::Error
    } else if 400 <= status && status <= 499 {
        LogLevel::Warn
    } else {
        LogLevel::Info
    }
}

} // verus!
