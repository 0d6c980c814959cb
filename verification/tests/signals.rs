use wos_kernel::signals::{Signal, SignalAction, SignalSet};

#[test]
fn test_signal_from_number() {
    assert_eq!(Signal::from_number(2), Some(Signal::SIGINT));
    assert_eq!(Signal::from_number(9), Some(Signal::SIGKILL));
    assert_eq!(Signal::from_number(15), Some(Signal::SIGTERM));
    assert_eq!(Signal::from_number(99), None);
}

#[test]
fn test_signal_number() {
    assert_eq!(Signal::SIGINT.number(), 2);
    assert_eq!(Signal::SIGKILL.number(), 9);
}

#[test]
fn test_signal_catchable() {
    assert!(Signal::SIGINT.is_catchable());
    assert!(Signal::SIGTERM.is_catchable());
    assert!(!Signal::SIGKILL.is_catchable());
}

#[test]
fn test_signal_default_action() {
    assert_eq!(Signal::SIGINT.default_action(), SignalAction::Terminate);
    assert_eq!(Signal::SIGCHLD.default_action(), SignalAction::Ignore);
}

#[test]
fn test_signal_set_basic() {
    let mut set = SignalSet::new();
    assert!(set.is_empty());

    set.add(Signal::SIGINT);
    assert!(set.contains(Signal::SIGINT));
    assert!(!set.contains(Signal::SIGTERM));

    set.add(Signal::SIGTERM);
    assert!(set.contains(Signal::SIGTERM));

    set.remove(Signal::SIGINT);
    assert!(!set.contains(Signal::SIGINT));
    assert!(set.contains(Signal::SIGTERM));
}

#[test]
fn test_signal_set_clear() {
    let mut set = SignalSet::new();
    set.add(Signal::SIGINT);
    set.add(Signal::SIGTERM);
    assert!(!set.is_empty());

    set.clear();
    assert!(set.is_empty());
}

#[test]
fn test_signal_set_next() {
    let mut set = SignalSet::new();
    assert_eq!(set.next_signal(), None);

    set.add(Signal::SIGTERM);
    set.add(Signal::SIGINT);
    // Should return lowest number first (SIGINT=2)
    assert_eq!(set.next_signal(), Some(Signal::SIGINT));
}
