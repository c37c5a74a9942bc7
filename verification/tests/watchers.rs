use monitrust::watcher::heartbeat;
use monitrust::watcher::memory;
use monitrust::watcher::first_of_each_kind;
use monitrust::watcher::WatcherKind::{Heartbeat, Memory};

#[test]
fn heartbeat_period_is_in_hours() {
    let checker = heartbeat::Checker::new(heartbeat::Configuration { period_hours: 2 });
    assert_eq!(checker.period(), 7200);
}

#[test]
fn memory_period_is_in_minutes() {
    let checker = memory::Checker::new(memory::Configuration { period_minutes: 5 });
    assert_eq!(checker.period(), 300);
}

#[test]
fn heartbeat_always_fires() {
    let checker = heartbeat::Checker::new(heartbeat::Configuration { period_hours: 1 });
    let result = checker.check();
    let alert = heartbeat::Alert {}.is_triggered(&result).expect("a heartbeat fires");
    assert_eq!(alert.message, "MonitRust is still running 💓");
}

#[test]
fn keeps_first_configuration_of_each_kind() {
    assert_eq!(first_of_each_kind(&vec![]), Vec::<usize>::new());
    assert_eq!(first_of_each_kind(&vec![Memory]), vec![0]);
    assert_eq!(first_of_each_kind(&vec![Memory, Heartbeat]), vec![0, 1]);
    assert_eq!(first_of_each_kind(&vec![Heartbeat, Heartbeat, Memory, Heartbeat, Memory]), vec![0, 2]);
    assert_eq!(first_of_each_kind(&vec![Memory, Memory, Memory]), vec![0]);
}

