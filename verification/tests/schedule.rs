use monitrust::scheduled_watcher::ScheduledWatcher;
use monitrust::scheduler::Scheduler;

#[test]
fn all_watchers_start_due_in_order() {
    let mut s = Scheduler::new(vec![60, 3600, 300], 5);
    assert_eq!(s.len(), 3);
    for w in 0..3 {
        let next = s.next().unwrap();
        assert_eq!((next.deadline, next.watcher), (5, w));
    }
    assert!(s.next().is_none());
    assert!(s.is_empty());
}

#[test]
fn earliest_deadline_runs_next() {
    let mut s = Scheduler::new(vec![60, 10, 30], 0);
    for _ in 0..3 {
        let next = s.next().unwrap();
        s.reschedule(next.watcher, 1_000);
    }
    // deadlines: watcher 0 at 61_000, watcher 1 at 11_000, watcher 2 at 31_000
    let order: Vec<(u64, usize)> = (0..3)
        .map(|_| {
            let n = s.next().unwrap();
            (n.deadline, n.watcher)
        })
        .collect();
    assert_eq!(order, vec![(11_000, 1), (31_000, 2), (61_000, 0)]);
}

#[test]
fn round_keeps_every_watcher_queued_once() {
    let mut s = Scheduler::new(vec![1, 2, 3, 4], 0);
    for round in 0..20u64 {
        let next = s.next().unwrap();
        assert!(!s.is_queued(next.watcher));
        s.reschedule(next.watcher, round * 500);
        assert_eq!(s.len(), 4);
        for w in 0..4 {
            assert!(s.is_queued(w));
        }
    }
}

#[test]
fn no_watcher_no_run() {
    let mut s = Scheduler::new(vec![], 0);
    assert!(s.next().is_none());
    assert_eq!(s.watcher_count(), 0);
}

#[test]
fn reschedule_is_one_period_after_the_end_of_the_run() {
    let mut s = Scheduler::new(vec![7], 0);
    let next = s.next().unwrap();
    s.reschedule(next.watcher, 2_500);
    let again = s.next().unwrap();
    assert_eq!((again.deadline, again.watcher), (9_500, 0));
    assert_eq!(s.period(0), 7);
}

#[test]
fn scheduled_watchers_compare_by_deadline() {
    let a = ScheduledWatcher { deadline: 3, watcher: 0 };
    let b = ScheduledWatcher { deadline: 3, watcher: 1 };
    let c = ScheduledWatcher { deadline: 9, watcher: 0 };
    assert!(a == b);
    assert!(a != c);
    assert!(a < c);
    assert_eq!(c.partial_cmp(&a), Some(std::cmp::Ordering::Greater));
    assert_eq!(a.partial_cmp(&b), Some(std::cmp::Ordering::Equal));
}
