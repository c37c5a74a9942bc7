//! The schedule of the watchers: which watcher runs next, and when.
//!
//! Time is counted in milliseconds from a starting instant that the caller
//! chooses; a watcher is known by its index among the configured watchers and
//! runs every `periods[index]` seconds. The service takes the watcher with the
//! earliest deadline, waits for that deadline, runs the watcher and puts it
//! back with a deadline one period after the moment the run ended.
use vstd::prelude::*;

use core::cmp::Ordering;
use vstd::std_specs::cmp::{PartialEqSpec, PartialOrdSpec};

verus! {

/// Milliseconds in one second.
pub const MILLIS_PER_SECOND: u64 = 1000;

/// A watcher waiting for its next run.
#[derive(Debug, Clone, Copy)]
pub struct ScheduledWatcher {
    /// When the watcher is due, in milliseconds from the start.
    pub deadline: u64,
    /// The watcher's index among the configured watchers.
    pub watcher: usize,
}

/// Scheduled watchers compare by their deadlines alone.
impl PartialEq for ScheduledWatcher {
    fn eq(&self, other: &Self) -> (same: bool) {
        self.deadline == other.deadline
    }
}

impl vstd::std_specs::cmp::PartialEqSpecImpl for ScheduledWatcher {
    open spec fn obeys_eq_spec() -> bool {
        true
    }

    open spec fn eq_spec(&self, other: &Self) -> bool {
        self.deadline == other.deadline
    }
}

/// The order of two deadlines.
pub open spec fn deadline_order(a: u64, b: u64) -> Ordering {
    if a < b {
        Ordering::Less
    } else if a == b {
        Ordering::Equal
    } else {
        Ordering::Greater
    }
}

/// Scheduled watchers are ordered by their deadlines alone.
impl PartialOrd for ScheduledWatcher {
    fn partial_cmp(&self, other: &Self) -> (order: Option<Ordering>)
        ensures
            (order == Some(Ordering::Less)) <==> self.deadline < other.deadline,
            (order == Some(Ordering::Equal)) <==> self.deadline == other.deadline,
            (order == Some(Ordering::Greater)) <==> self.deadline > other.deadline,
    {
        if self.deadline < other.deadline {
            Some(Ordering::Less)
        } else if self.deadline == other.deadline {
            Some(Ordering::Equal)
        } else {
            Some(Ordering::Greater)
        }
    }
}

impl vstd::std_specs::cmp::PartialOrdSpecImpl for ScheduledWatcher {
    open spec fn obeys_partial_cmp_spec() -> bool {
        true
    }

    open spec fn partial_cmp_spec(&self, other: &Self) -> Option<Ordering> {
        Some(deadline_order(self.deadline, other.deadline))
    }
}

/// Scheduled watchers are ordered as their deadlines are: the one due first
/// is the lesser, equal deadlines compare equal, whatever the watchers.
pub proof fn law_order_follows_deadlines(a: ScheduledWatcher, b: ScheduledWatcher)
    ensures
        (a.partial_cmp_spec(&b) == Some(Ordering::Less)) <==> a.deadline < b.deadline,
        (a.partial_cmp_spec(&b) == Some(Ordering::Equal)) <==> a.deadline == b.deadline,
        (a.partial_cmp_spec(&b) == Some(Ordering::Greater)) <==> a.deadline > b.deadline,
        a.eq_spec(&b) <==> a.deadline == b.deadline,
        (a.partial_cmp_spec(&b) == Some(Ordering::Less)) <==> (b.partial_cmp_spec(&a) == Some(
            Ordering::Greater,
        )),
{
}

} // verus!
