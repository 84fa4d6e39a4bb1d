use waitmate::coordinator::{Action, Coordinator, Producer};
use waitmate::event::{Event, Level};

fn ev(time: u128) -> Event {
    Event::with_identity(1, time, "w", "a", "b", "c", Level::INFO)
}

#[test]
fn hangup_does_not_stop_but_terminate_does() {
    let mut c = Coordinator::new(vec![Producer::Notifier, Producer::Waiter]);
    assert!(c.running());
    assert!(matches!(c.on_signal(true), Action::Continue));
    assert!(c.running());
    assert!(matches!(c.on_signal(false), Action::Stop));
    assert!(!c.running());
}

#[test]
fn counts_only_waiters_as_pending() {
    let c = Coordinator::new(vec![Producer::Notifier, Producer::Waiter, Producer::Waiter]);
    assert_eq!(2, c.waiters_pending);
    assert_eq!(vec![true, true, true], c.registered);
}

#[test]
fn no_waiters_means_not_running() {
    let c = Coordinator::new(vec![Producer::Notifier]);
    assert!(!c.running());
}

#[test]
fn event_is_appended_unchanged() {
    let mut c = Coordinator::new(vec![Producer::Waiter]);
    match c.on_event(ev(42)) {
        Action::Append(e) => {
            assert_eq!(42, e.time);
            assert_eq!("b", e.description);
        }
        _ => panic!("expected an append"),
    }
    assert!(c.running());
}

#[test]
fn loop_ends_when_every_waiter_is_done() {
    let mut c = Coordinator::new(vec![Producer::Notifier, Producer::Waiter, Producer::Waiter]);
    assert!(matches!(c.on_closed(1), Action::Deregister(1)));
    assert_eq!(1, c.waiters_pending);
    assert!(c.running());
    // A channel closed twice counts once.
    assert!(matches!(c.on_closed(1), Action::Continue));
    assert_eq!(1, c.waiters_pending);
    // A notifier's channel closing is no waiter finishing.
    assert!(matches!(c.on_closed(0), Action::Deregister(0)));
    assert_eq!(1, c.waiters_pending);
    assert!(matches!(c.on_closed(2), Action::Deregister(2)));
    assert_eq!(0, c.waiters_pending);
    assert!(!c.running());
    assert_eq!(vec![false, false, false], c.registered);
}

#[test]
fn unknown_channel_is_ignored() {
    let mut c = Coordinator::new(vec![Producer::Waiter]);
    assert!(matches!(c.on_closed(5), Action::Continue));
    assert_eq!(1, c.waiters_pending);
}
