use epok::{DebounceAction, DebounceEvent, Debouncer};

fn emitted(a: DebounceAction<i32>) -> Option<Vec<i32>> {
    match a {
        DebounceAction::Emit(b) => Some(b),
        _ => None,
    }
}

#[test]
fn should_give_up() {
    let mut deb: Debouncer<()> = Debouncer::new(256);
    assert!(matches!(deb.step(DebounceEvent::UpstreamEnded), DebounceAction::Finish));
    assert!(matches!(deb.step(DebounceEvent::UpstreamEnded), DebounceAction::Finish));
}

#[test]
fn should_drain() {
    let mut deb = Debouncer::new(256);
    for i in [1, 2, 3, 4, 5] {
        assert!(emitted(deb.step(DebounceEvent::Item(i))).is_none());
    }
    assert!(matches!(deb.step(DebounceEvent::UpstreamEnded), DebounceAction::Wait));
    assert_eq!(emitted(deb.step(DebounceEvent::TimerFired)), Some(vec![1, 2, 3, 4, 5]));
    assert!(matches!(deb.step(DebounceEvent::UpstreamEnded), DebounceAction::Finish));
}

#[test]
fn should_debounce() {
    let mut deb = Debouncer::new(256);
    for i in [1, 2, 3] {
        assert!(matches!(deb.step(DebounceEvent::Item(i)), DebounceAction::ArmTimer));
    }
    assert_eq!(emitted(deb.step(DebounceEvent::TimerFired)), Some(vec![1, 2, 3]));

    for i in [4, 5] {
        assert!(matches!(deb.step(DebounceEvent::Item(i)), DebounceAction::ArmTimer));
    }
    assert!(!deb.is_idle());
    assert_eq!(emitted(deb.step(DebounceEvent::TimerFired)), Some(vec![4, 5]));

    assert!(matches!(deb.step(DebounceEvent::Item(6)), DebounceAction::ArmTimer));
    assert!(matches!(deb.step(DebounceEvent::UpstreamEnded), DebounceAction::Wait));
    assert_eq!(emitted(deb.step(DebounceEvent::TimerFired)), Some(vec![6]));
}

#[test]
fn should_drain_when_capacity_reached() {
    let mut deb = Debouncer::new(2);
    assert_eq!(deb.capacity(), 2);
    assert!(emitted(deb.step(DebounceEvent::Item(1))).is_none());
    assert_eq!(emitted(deb.step(DebounceEvent::Item(2))), Some(vec![1, 2]));
    assert!(emitted(deb.step(DebounceEvent::Item(3))).is_none());
    assert_eq!(emitted(deb.step(DebounceEvent::Item(4))), Some(vec![3, 4]));
    assert!(emitted(deb.step(DebounceEvent::Item(5))).is_none());
    assert!(matches!(deb.step(DebounceEvent::UpstreamEnded), DebounceAction::Wait));
    assert_eq!(emitted(deb.step(DebounceEvent::TimerFired)), Some(vec![5]));
}

#[test]
fn timer_on_empty_queue_waits() {
    let mut deb: Debouncer<i32> = Debouncer::new(4);
    assert!(deb.is_idle());
    assert!(matches!(deb.step(DebounceEvent::TimerFired), DebounceAction::Wait));
}
