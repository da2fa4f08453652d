//! Settings of a run that are not part of the search itself.
use vstd::prelude::*;

verus! {

/// How much is logged.
#[derive(Debug, Clone, Copy, PartialEq, Eq, Structural)]
pub enum LogLevel {
    Info,
    Debug,
}

/// Settings of the process around the search.
pub struct SystemArgs {
    pub debug: LogLevel,
}

impl SystemArgs {
    /// Settings for a verbosity counter: none logs at info level, one or
    /// more at debug level.
    pub fn from_verbosity(count: u8) -> (r: SystemArgs)
        ensures
            r.debug == (if count == 0 {
                LogLevel::Info
            } else {
                LogLevel::Debug
            }),
    {
        if count == 0 {
            SystemArgs { debug: LogLevel::Info }
        } else {
            SystemArgs { debug: LogLevel::Debug }
        }
    }
}

} // verus!
