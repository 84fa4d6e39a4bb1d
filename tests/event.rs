use std::time::SystemTime;

use waitmate::adapters::{SleepyWaiter, StdinWaiter, StdoutNotifier};
use waitmate::channel::EventChannel;
use waitmate::event::{EmptyEventBus, EmptyNamed, Event, EventBus, Level, Named};

#[test]
fn event_io() {
    let source = EmptyNamed {};
    let start = SystemTime::now().duration_since(SystemTime::UNIX_EPOCH).unwrap().as_micros();
    let e = Event::new(&source, "a", "b", "c", Level::WARN);
    assert!(e.time >= start);
    assert_eq!("a", e.name);
    assert_eq!("b", e.description);
    assert_eq!("c", e.category);
    assert_eq!(Level::WARN, e.level);
    assert_eq!("NAMED", e.source);
    // Wait on the clock itself, then check that a new event reads it.
    while SystemTime::now().duration_since(SystemTime::UNIX_EPOCH).unwrap().as_micros() <= e.time {}
    let e2 = Event::new(&source, "a", "b", "c", Level::WARN);
    assert!(e2.time > e.time);
}

#[test]
fn new_event_takes_the_source_name_and_a_fresh_id() {
    let source = EmptyNamed {};
    let e1 = Event::new(&source, "a", "b", "c", Level::INFO);
    let e2 = Event::new(&source, "a", "b", "c", Level::INFO);
    assert_eq!("NAMED", e1.source);
    assert_ne!(e1.id, e2.id);
}

#[test]
fn event_with_identity_keeps_every_field() {
    let e = Event::with_identity(9, 8, "src", "n", "d", "cat", Level::ERROR);
    assert_eq!(9, e.id);
    assert_eq!(8, e.time);
    assert_eq!("src", e.source);
    assert_eq!("n", e.name);
    assert_eq!("d", e.description);
    assert_eq!("cat", e.category);
    assert_eq!(Level::ERROR, e.level);
}

#[test]
fn sleepy_waiter_numbers_its_events() {
    let w = SleepyWaiter::new();
    assert_eq!("SleepyWaiter", w.name());
    assert_eq!(10, SleepyWaiter::COUNT);
    for i in 0..SleepyWaiter::COUNT {
        let e = w.event(i);
        assert_eq!("A", e.name);
        assert_eq!(format!("EVENT {}", i), e.description);
        assert_eq!("Doggo", e.category);
        assert_eq!(Level::WARN, e.level);
        assert_eq!("SleepyWaiter", e.source);
    }
    assert_eq!("EVENT 123", w.event(123).description);
}

#[test]
fn stdin_waiter_keeps_lines_that_mention_bash() {
    let w = StdinWaiter::new();
    let e = w.event_for_line("/bin/bash -l").unwrap();
    assert_eq!("/bin/bash -l", e.description);
    assert_eq!("A name", e.name);
    assert_eq!("Cat", e.category);
    assert_eq!(Level::WARN, e.level);
    assert!(w.event_for_line("bash").is_some());
    assert!(w.event_for_line("/bin/zsh").is_none());
    assert!(w.event_for_line("").is_none());
}

#[test]
fn stdin_waiter_event_follows_the_match() {
    let w = StdinWaiter::new();
    assert!(w.event_if_matched("anything", true).is_some());
    assert!(w.event_if_matched("bash", false).is_none());
}

#[test]
fn stdout_notifier_is_named() {
    assert_eq!("StdoutNotifier", StdoutNotifier::new().name());
}

#[test]
fn empty_bus_accepts_events() {
    let bus = EmptyEventBus {};
    bus.publish(Event::with_identity(1, 2, "s", "n", "d", "c", Level::TRACE));
}

#[test]
fn event_channel_sends_events_then_one_terminal_none() {
    let (mut bus, receiver) = EventChannel::new();
    assert!(!bus.finished());
    bus.publish(Event::with_identity(1, 2, "s", "n", "first", "c", Level::DEBUG));
    bus.done();
    bus.done();
    assert!(bus.finished());
    drop(bus);

    let first = receiver.recv().unwrap().unwrap();
    assert_eq!("first", first.description);
    assert!(receiver.recv().unwrap().is_none());
    // The sender is gone, and only one `None` was sent.
    assert!(receiver.recv().is_err());
}

#[test]
fn event_channel_sends_none_when_dropped() {
    let (bus, receiver) = EventChannel::new();
    drop(bus);
    assert!(receiver.recv().unwrap().is_none());
    assert!(receiver.recv().is_err());
}

#[test]
fn publishing_after_the_receiver_is_gone_is_silent() {
    let (bus, receiver) = EventChannel::new();
    drop(receiver);
    bus.publish(Event::with_identity(1, 2, "s", "n", "d", "c", Level::DEBUG));
}
