//! The heartbeat watcher: it fires on every run, so that the operator sees
//! that the service is alive.
use vstd::prelude::*;

use crate::watcher::ActiveAlert;

verus! {

/// Seconds in one hour.
pub const SECONDS_PER_HOUR: u64 = 3600;

/// How often the heartbeat fires, in hours.
#[derive(Debug, Clone)]
pub struct Configuration {
    pub period_hours: u64,
}

/// The heartbeat's checker: it only knows its period.
#[derive(Debug)]
pub struct Checker {
    period: u64,
}

impl Checker {
    /// The period in seconds.
    pub closed spec fn spec_period(&self) -> u64 {
        self.period
    }

    /// Builds the checker of a configuration. The period in seconds must fit
    /// in a `u64`.
    pub fn new(configuration: Configuration) -> (checker: Self)
        requires
            SECONDS_PER_HOUR * configuration.period_hours <= u64::MAX,
        ensures
            checker.spec_period() == SECONDS_PER_HOUR * configuration.period_hours,
    {
        Checker { period: SECONDS_PER_HOUR * configuration.period_hours }
    }

    /// The time between two runs of this watcher, in seconds.
    pub fn period(&self) -> (seconds: u64)
        ensures
            seconds == self.spec_period(),
    {
        self.period
    }

    /// A heartbeat check always succeeds and finds nothing.
    pub fn check(&self) -> (result: ())
    {
    }
}

/// The message that a heartbeat sends.
pub open spec fn heartbeat_message() -> Seq<char> {
    "MonitRust is still running 💓"@
}

/// A heartbeat alert; it has no threshold.
#[derive(Debug, Clone)]
pub struct Alert {}

impl Alert {
    /// A heartbeat alert fires on every check result.
    pub fn is_triggered(&self, check_result: &()) -> (alert: Option<ActiveAlert>)
        ensures
            alert is Some,
            alert->0.message@ == heartbeat_message(),
    {
        Some(ActiveAlert { message: String::from_str("MonitRust is still running 💓") })
    }
}

} // verus!
