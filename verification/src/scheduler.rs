//! The run loop's decisions: a queue of watchers ordered by deadline.
//!
//! The service builds a [`Scheduler`] with every configured watcher due at
//! once, then loops: [`Scheduler::next`] hands out the watcher with the
//! earliest deadline (the first queued among equal deadlines), the caller
//! waits for that deadline and runs the watcher, and
//! [`Scheduler::reschedule`] puts it back one period after the moment the run
//! ended. The loop ends when the queue is empty, that is when no watcher was
//! configured.
use vstd::prelude::*;

use crate::scheduled_watcher::{ScheduledWatcher, MILLIS_PER_SECOND};

verus! {

/// `k` is the position of the entry that runs next: its deadline is not after
/// any other, and every entry before it is due strictly later.
pub open spec fn is_next(q: Seq<ScheduledWatcher>, k: int) -> bool {
    &&& 0 <= k < q.len()
    &&& forall|j: int| 0 <= j < q.len() ==> q[k].deadline <= #[trigger] q[j].deadline
    &&& forall|j: int| 0 <= j < k ==> q[k].deadline < #[trigger] q[j].deadline
}

/// The watcher indices of a queue, in queue order.
pub open spec fn watchers_of(q: Seq<ScheduledWatcher>) -> Seq<usize> {
    q.map_values(|e: ScheduledWatcher| e.watcher)
}

/// The queue that a new scheduler starts with: watcher `i` at position `i`,
/// every one due at `now`.
pub open spec fn initial_queue(n: nat, now: u64) -> Seq<ScheduledWatcher> {
    Seq::new(n, |i: int| ScheduledWatcher { deadline: now, watcher: i as usize })
}

/// The deadline of a watcher whose run ended at `now` and whose period is
/// `period_seconds`.
pub open spec fn next_deadline(now: u64, period_seconds: u64) -> int {
    now + period_seconds * MILLIS_PER_SECOND
}

/// A watcher put back after its run is due exactly one period after the run
/// ended: its period in seconds, counted in milliseconds, added to the end of
/// the run; one second more of period makes it due one thousand milliseconds
/// later, and it is never due before the run ended.
pub proof fn law_rescheduled_one_period_later(now: u64, period_seconds: u64)
    ensures
        next_deadline(now, period_seconds) == now + 1000 * period_seconds,
        next_deadline(now, period_seconds) - now == 1000 * period_seconds,
        next_deadline(now, (period_seconds + 1) as u64) == next_deadline(now, period_seconds)
            + 1000 || period_seconds == u64::MAX,
        next_deadline(now, period_seconds) >= now,
{
}

/// A new scheduler holds every configured watcher, each exactly once.
pub proof fn law_start_queues_each_watcher_once(n: nat, now: u64)
    requires
        n <= usize::MAX + 1,
    ensures
        watchers_of(initial_queue(n, now)).no_duplicates(),
        forall|w: usize| #[trigger] watchers_of(initial_queue(n, now)).contains(w) <==> w < n,
{
    let ws = watchers_of(initial_queue(n, now));
    assert forall|i: int| 0 <= i < ws.len() implies #[trigger] ws[i] == i by {}
    assert forall|w: usize| #[trigger] ws.contains(w) <==> w < n by {
        if w < n {
            assert(ws[w as int] == w);
        }
    }
}

/// A round of the loop (take the next watcher out, run it, put it back with
/// a new deadline) keeps the same watchers waiting, each exactly once.
pub proof fn law_round_keeps_each_watcher_once(q: Seq<ScheduledWatcher>, k: int, deadline: u64)
    requires
        0 <= k < q.len(),
        watchers_of(q).no_duplicates(),
    ensures
        watchers_of(q.remove(k).push(ScheduledWatcher { deadline, watcher: q[k].watcher })).no_duplicates(),
        forall|w: usize|
            #[trigger] watchers_of(
                q.remove(k).push(ScheduledWatcher { deadline, watcher: q[k].watcher }),
            ).contains(w) <==> watchers_of(q).contains(w),
{
    let ws = watchers_of(q);
    let after = watchers_of(q.remove(k).push(ScheduledWatcher { deadline, watcher: q[k].watcher }));
    assert(after =~= ws.remove(k).push(ws[k]));
    assert forall|i: int, j: int| 0 <= i < after.len() && 0 <= j < after.len() && i != j implies after[i]
        != after[j] by {
        let oi = if i < k { i } else if i < after.len() - 1 { i + 1 } else { k };
        let oj = if j < k { j } else if j < after.len() - 1 { j + 1 } else { k };
        assert(after[i] == ws[oi]);
        assert(after[j] == ws[oj]);
    }
    assert forall|w: usize| #[trigger] after.contains(w) <==> ws.contains(w) by {
        if after.contains(w) {
            let i = choose|i: int| 0 <= i < after.len() && after[i] == w;
            let oi = if i < k { i } else if i < after.len() - 1 { i + 1 } else { k };
            assert(ws[oi] == w);
        }
        if ws.contains(w) {
            let i = choose|i: int| 0 <= i < ws.len() && ws[i] == w;
            let ai = if i < k { i } else if i == k { after.len() - 1 } else { i - 1 };
            assert(after[ai] == w);
        }
    }
}

/// The watchers waiting for their next run, and the period of each
/// configured watcher.
pub struct Scheduler {
    queue: Vec<ScheduledWatcher>,
    periods: Vec<u64>,
}

impl Scheduler {
    /// The waiting watchers, in the order they were queued.
    pub closed spec fn queue(&self) -> Seq<ScheduledWatcher> {
        self.queue@
    }

    /// The period of each configured watcher, in seconds.
    pub closed spec fn periods(&self) -> Seq<u64> {
        self.periods@
    }

    /// Every queued watcher is a configured one.
    #[verifier::type_invariant]
    spec fn wf(&self) -> bool {
        forall|j: int|
            0 <= j < self.queue@.len() ==> (#[trigger] self.queue@[j]).watcher < self.periods@.len()
    }

    /// A scheduler in which every configured watcher is due at `now`.
    pub fn new(periods: Vec<u64>, now: u64) -> (scheduler: Self)
        ensures
            scheduler.periods() == periods@,
            scheduler.queue() == initial_queue(periods@.len(), now),
    {
        let mut queue: Vec<ScheduledWatcher> = Vec::new();
        let mut i: usize = 0;
        while i < periods.len()
            invariant
                i <= periods.len(),
                queue@ == initial_queue(i as nat, now),
            decreases periods.len() - i,
        {
            queue.push(ScheduledWatcher { deadline: now, watcher: i });
            i += 1;
            assert(queue@ =~= initial_queue(i as nat, now));
        }
        Scheduler { queue, periods }
    }

    /// The number of watchers waiting.
    pub fn len(&self) -> (n: usize)
        ensures
            n == self.queue().len(),
    {
        self.queue.len()
    }

    /// Whether no watcher is waiting.
    pub fn is_empty(&self) -> (empty: bool)
        ensures
            empty == (self.queue().len() == 0),
    {
        self.queue.len() == 0
    }

    /// The number of configured watchers.
    pub fn watcher_count(&self) -> (n: usize)
        ensures
            n == self.periods().len(),
    {
        self.periods.len()
    }

    /// The period of a configured watcher, in seconds.
    pub fn period(&self, watcher: usize) -> (seconds: u64)
        requires
            watcher < self.periods().len(),
        ensures
            seconds == self.periods()[watcher as int],
    {
        self.periods[watcher]
    }

    /// Whether `watcher` is waiting in the queue.
    pub fn is_queued(&self, watcher: usize) -> (queued: bool)
        ensures
            queued == watchers_of(self.queue()).contains(watcher),
    {
        let mut i: usize = 0;
        while i < self.queue.len()
            invariant
                i <= self.queue@.len(),
                forall|j: int| 0 <= j < i ==> (#[trigger] self.queue@[j]).watcher != watcher,
            decreases self.queue@.len() - i,
        {
            if self.queue[i].watcher == watcher {
                assert(watchers_of(self.queue@)[i as int] == watcher);
                return true;
            }
            i += 1;
        }
        assert forall|j: int|
            0 <= j < watchers_of(self.queue@).len() implies watchers_of(self.queue@)[j]
            != watcher by {
            assert(self.queue@[j].watcher != watcher);
        }
        false
    }

    /// Takes the watcher that runs next out of the queue: the one with the
    /// earliest deadline, and among equal deadlines the first queued. Gives
    /// `None`, and changes nothing, when the queue is empty.
    pub fn next(&mut self) -> (next: Option<ScheduledWatcher>)
        ensures
            final(self).periods() == old(self).periods(),
            next matches Some(e) ==> e.watcher < old(self).periods().len(),
            old(self).queue().len() == 0 ==> next is None && final(self).queue() == old(self).queue(),
            old(self).queue().len() > 0 ==> exists|k: int|
                is_next(old(self).queue(), k) && next == Some(old(self).queue()[k])
                    && final(self).queue() == old(self).queue().remove(k),
    {
        proof {
            use_type_invariant(&*self);
        }
        if self.queue.len() == 0 {
            return None;
        }
        let mut best: usize = 0;
        let mut i: usize = 1;
        while i < self.queue.len()
            invariant
                1 <= i <= self.queue@.len(),
                best < i,
                forall|j: int| 0 <= j < i ==> self.queue@[best as int].deadline <= (
                #[trigger] self.queue@[j]).deadline,
                forall|j: int| 0 <= j < best ==> self.queue@[best as int].deadline < (
                #[trigger] self.queue@[j]).deadline,
            decreases self.queue@.len() - i,
        {
            if self.queue[i].deadline < self.queue[best].deadline {
                best = i;
            }
            i += 1;
        }
        let ghost before = self.queue@;
        assert(is_next(before, best as int));
        let mut queue: Vec<ScheduledWatcher> = Vec::new();
        std::mem::swap(&mut queue, &mut self.queue);
        let entry = queue.remove(best);
        assert forall|j: int| 0 <= j < queue@.len() implies (#[trigger] queue@[j]).watcher
            < self.periods@.len() by {
            if j < best {
                assert(queue@[j] == before[j]);
            } else {
                assert(queue@[j] == before[j + 1]);
            }
        }
        self.queue = queue;
        Some(entry)
    }

    /// Queues `watcher` again, due one period after `now`, the moment its run
    /// ended. The deadline must fit in a `u64`.
    pub fn reschedule(&mut self, watcher: usize, now: u64)
        requires
            watcher < old(self).periods().len(),
            next_deadline(now, old(self).periods()[watcher as int]) <= u64::MAX,
        ensures
            final(self).periods() == old(self).periods(),
            final(self).queue() == old(self).queue().push(
                ScheduledWatcher {
                    deadline: next_deadline(now, old(self).periods()[watcher as int]) as u64,
                    watcher,
                },
            ),
            final(self).queue().last().watcher == watcher,
            final(self).queue().last().deadline == now + 1000 * old(self).periods()[watcher as int],
    {
        proof {
            use_type_invariant(&*self);
        }
        let period = self.periods[watcher];
        let deadline = now + period * MILLIS_PER_SECOND;
        let ghost before = self.queue@;
        let mut queue: Vec<ScheduledWatcher> = Vec::new();
        std::mem::swap(&mut queue, &mut self.queue);
        queue.push(ScheduledWatcher { deadline, watcher });
        assert forall|j: int| 0 <= j < queue@.len() implies (#[trigger] queue@[j]).watcher
            < self.periods@.len() by {
            if j < before.len() {
                assert(queue@[j] == before[j]);
            }
        }
        self.queue = queue;
    }
}

} // verus!
