use std::collections::{BTreeMap, HashMap, VecDeque};

use waitmate::cursor::{Cursor, CursorBuilder, Floor, Phase, Row, Step};
use waitmate::event::{EmptyNamed, Event, Level};
use waitmate::key::create_key;

/// An ordered in-memory store with the two namespaces of the log, and an
/// iterator position, driven the way the real store is.
struct MemLog {
    log: BTreeMap<Vec<u8>, Vec<u8>>,
    offsets: HashMap<String, Vec<u8>>,
}

impl MemLog {
    fn new() -> MemLog {
        MemLog { log: BTreeMap::new(), offsets: HashMap::new() }
    }

    fn add(&mut self, e: &Event) {
        self.log.insert(create_key(e.time, e.id), e.description.clone().into_bytes());
    }

    fn first_from(&self, k: &[u8]) -> Option<Vec<u8>> {
        self.log.range(k.to_vec()..).next().map(|(k, _)| k.clone())
    }

    fn row(&self, k: &Option<Vec<u8>>) -> Option<Row> {
        k.as_ref().map(|k| Row { key: k.clone(), value: self.log[k].clone() })
    }
}

/// Builds the cursor, reading a named consumer's stored offset now.
fn open(b: CursorBuilder, store: &MemLog) -> Cursor {
    let stored = if b.name.is_empty() { None } else { store.offsets.get(&b.name).cloned() };
    b.build(stored)
}

/// One turn of the cursor: the row it hands out, or `None` when it is done.
/// `tickles` stands in for the tail channel; an empty queue is a closed one.
fn next_row(
    c: &mut Cursor,
    store: &mut MemLog,
    at: &mut Option<Vec<u8>>,
    tickles: &mut VecDeque<bool>,
) -> Option<Row> {
    let mut step = c.next_step();
    loop {
        step = match step {
            Step::SeekFirst => {
                *at = store.log.keys().next().cloned();
                c.positioned(store.row(at))
            }
            Step::Seek { key } => {
                *at = store.first_from(&key);
                c.positioned(store.row(at))
            }
            Step::Advance => {
                *at = match at.as_ref() {
                    Some(k) => {
                        let mut after = k.clone();
                        after.push(0);
                        store.first_from(&after)
                    }
                    None => None,
                };
                c.positioned(store.row(at))
            }
            Step::Deliver { row, offset } => {
                if let Some(name) = offset {
                    store.offsets.insert(name, row.key.clone());
                }
                return Some(row);
            }
            Step::Wait => c.tickled(tickles.pop_front().unwrap_or(false)),
            Step::Finish => return None,
        }
    }
}

fn drain(c: &mut Cursor, store: &mut MemLog, tickles: &mut VecDeque<bool>) -> Vec<Row> {
    let mut at = None;
    let mut out = Vec::new();
    while let Some(r) = next_row(c, store, &mut at, tickles) {
        out.push(r);
    }
    out
}

fn ev(time: u128, id: u128, description: &str) -> Event {
    Event::with_identity(id, time, "test", "a", description, "c", Level::WARN)
}

fn descriptions(rows: &[Row]) -> Vec<String> {
    rows.iter().map(|r| String::from_utf8(r.value.clone()).unwrap()).collect()
}

fn wait_for_clock(after: u128) {
    let source = EmptyNamed {};
    while Event::new(&source, "a", "b", "c", Level::WARN).time <= after {}
}

#[test]
fn test_log_add_get_iter() {
    let mut store = MemLog::new();
    let source = EmptyNamed {};
    let e1 = Event::new(&source, "a", "b", "c", Level::WARN);
    wait_for_clock(e1.time);
    let e2 = Event::new(&source, "a", "b", "c", Level::WARN);
    store.add(&e1);
    store.add(&e2);

    assert!(store.log.get(&create_key(0, 1)).is_none());
    assert!(store.log.get(&create_key(e1.time, e1.id)).is_some());
    assert!(store.log.get(&create_key(e2.time, e2.id)).is_some());

    // Without an id the scan starts at or after the first key of e1's time,
    // so e1 itself is included.
    let mut c = open(CursorBuilder::new().starting_after(e1.time, None), &store);
    assert_eq!(2, drain(&mut c, &mut store, &mut VecDeque::new()).len());

    // With e1's id it starts strictly after e1.
    let mut c = open(CursorBuilder::new().starting_after(e1.time, Some(e1.id)), &store);
    let rows = drain(&mut c, &mut store, &mut VecDeque::new());
    assert_eq!(1, rows.len());
    assert_eq!(create_key(e2.time, e2.id), rows[0].key);

    let mut c = open(CursorBuilder::new(), &store);
    assert_eq!(2, drain(&mut c, &mut store, &mut VecDeque::new()).len());
}

#[test]
fn test_named_iter() {
    let mut store = MemLog::new();
    let source = EmptyNamed {};
    let e1 = Event::new(&source, "a", "b", "c", Level::WARN);
    wait_for_clock(e1.time);
    let e2 = Event::new(&source, "a", "b", "c", Level::WARN);
    wait_for_clock(e2.time);
    let e3 = Event::new(&source, "a", "b", "c", Level::WARN);
    store.add(&e1);
    store.add(&e2);

    let mut c = open(CursorBuilder::new().named("markie"), &store);
    assert_eq!(2, drain(&mut c, &mut store, &mut VecDeque::new()).len());

    let mut c = open(CursorBuilder::new().named("markie"), &store);
    assert_eq!(0, drain(&mut c, &mut store, &mut VecDeque::new()).len());

    store.add(&e3);
    let mut c = open(CursorBuilder::new().named("markie"), &store);
    assert_eq!(1, drain(&mut c, &mut store, &mut VecDeque::new()).len());
}

#[test]
fn test_threaded_tail() {
    let mut store = MemLog::new();
    let mut c = open(CursorBuilder::new().tailing(), &store);
    let mut at = None;
    let mut tickles = VecDeque::new();
    let mut count = 0;
    // Nothing yet: the cursor blocks; each add is followed by a `true`.
    for i in 0..3u128 {
        assert!(matches!(c.next_step(), Step::SeekFirst | Step::Seek { .. } | Step::Advance));
        let e = ev(100 * (i + 1), 1, "x");
        store.add(&e);
        tickles.push_back(true);
        if next_row(&mut c, &mut store, &mut at, &mut tickles).is_some() {
            count += 1;
        }
    }
    tickles.push_back(false);
    assert!(next_row(&mut c, &mut store, &mut at, &mut tickles).is_none());
    assert_eq!(3, count);
}

#[test]
fn tailing_cursor_sees_rows_added_after_it_blocked() {
    let mut store = MemLog::new();
    let mut c = open(CursorBuilder::new().tailing(), &store);
    let mut at = None;
    // The log is empty: the cursor reaches its end and asks to wait.
    assert!(matches!(c.next_step(), Step::SeekFirst));
    assert!(matches!(c.positioned(None), Step::Wait));
    assert_eq!(Phase::Waiting, c.phase);
    for (i, d) in ["first", "second", "third"].iter().enumerate() {
        store.add(&ev(1000 + i as u128, 9, d));
        let mut tickles = VecDeque::from(vec![true]);
        let row = next_row(&mut c, &mut store, &mut at, &mut tickles).unwrap();
        assert_eq!(d.as_bytes(), &row.value[..]);
    }
    let mut tickles = VecDeque::from(vec![false]);
    assert!(next_row(&mut c, &mut store, &mut at, &mut tickles).is_none());
    assert_eq!(Phase::Finished, c.phase);
}

#[test]
fn finished_cursor_hands_out_nothing_more() {
    let mut store = MemLog::new();
    store.add(&ev(1, 1, "one"));
    let mut c = open(CursorBuilder::new().tailing(), &store);
    assert!(matches!(c.tickled(false), Step::Finish));
    assert!(matches!(c.next_step(), Step::Finish));
    let row = Row { key: create_key(1, 1), value: b"one".to_vec() };
    assert!(matches!(c.positioned(Some(row)), Step::Finish));
    assert!(matches!(c.tickled(true), Step::Finish));
    assert!(drain(&mut c, &mut store, &mut VecDeque::from(vec![true])).is_empty());
}

#[test]
fn resume_across_restart() {
    let mut store = MemLog::new();
    store.add(&ev(10, 1, "e1"));
    store.add(&ev(20, 1, "e2"));
    store.add(&ev(30, 1, "e3"));
    let mut c = open(CursorBuilder::new().named("M"), &store);
    let mut at = None;
    let mut none = VecDeque::new();
    assert!(next_row(&mut c, &mut store, &mut at, &mut none).is_some());
    assert!(next_row(&mut c, &mut store, &mut at, &mut none).is_some());
    drop(c);
    // What survives a restart is the log and the offsets.
    let mut store = MemLog { log: store.log, offsets: store.offsets };
    let mut c = open(CursorBuilder::new().named("M"), &store);
    assert_eq!(vec!["e3"], descriptions(&drain(&mut c, &mut store, &mut VecDeque::new())));
    store.add(&ev(40, 1, "e4"));
    let mut c = open(CursorBuilder::new().named("M"), &store);
    assert_eq!(vec!["e4"], descriptions(&drain(&mut c, &mut store, &mut VecDeque::new())));
}

#[test]
fn row_without_stored_offset_is_replayed() {
    let mut store = MemLog::new();
    store.add(&ev(10, 1, "e1"));
    store.add(&ev(20, 1, "e2"));
    let mut c = open(CursorBuilder::new().named("N"), &store);
    let mut at = None;
    let mut none = VecDeque::new();
    assert!(next_row(&mut c, &mut store, &mut at, &mut none).is_some());
    let offset_after_first = store.offsets.get("N").cloned().unwrap();
    assert!(next_row(&mut c, &mut store, &mut at, &mut none).is_some());
    // The process stops before the offset of e2 is on disk.
    store.offsets.insert("N".to_string(), offset_after_first);
    let mut c = open(CursorBuilder::new().named("N"), &store);
    assert_eq!(vec!["e2"], descriptions(&drain(&mut c, &mut store, &mut VecDeque::new())));
}

#[test]
fn equal_times_are_ordered_by_id() {
    let mut store = MemLog::new();
    store.add(&ev(500, 0xb, "b"));
    store.add(&ev(500, 0xa, "a"));
    let mut c = open(CursorBuilder::new(), &store);
    assert_eq!(vec!["a", "b"], descriptions(&drain(&mut c, &mut store, &mut VecDeque::new())));
}

#[test]
fn events_come_out_in_time_order_whatever_the_order_of_adding() {
    let mut store = MemLog::new();
    store.add(&ev(100, 3, "100"));
    store.add(&ev(9, 1, "9"));
    store.add(&ev(10, 2, "10"));
    let mut c = open(CursorBuilder::new(), &store);
    assert_eq!(
        vec!["9", "10", "100"],
        descriptions(&drain(&mut c, &mut store, &mut VecDeque::new()))
    );
}

#[test]
fn cursor_passes_over_rows_not_beyond_its_floor() {
    let mut c = CursorBuilder::new().starting_after(20, Some(1)).build(None);
    let at_floor = Row { key: create_key(20, 1), value: vec![] };
    assert!(matches!(c.positioned(Some(at_floor)), Step::Advance));
    let below = Row { key: create_key(5, 1), value: vec![] };
    assert!(matches!(c.positioned(Some(below)), Step::Advance));
    let above = Row { key: create_key(21, 0), value: vec![7] };
    match c.positioned(Some(above)) {
        Step::Deliver { row, offset } => {
            assert_eq!(create_key(21, 0), row.key);
            assert!(offset.is_none());
        }
        _ => panic!("expected a delivery"),
    }
    match &c.floor {
        Floor::After(k) => assert_eq!(&create_key(21, 0), k),
        _ => panic!("expected the floor after the delivered key"),
    }
}

#[test]
fn named_cursor_starts_after_the_offset_read_at_build_time() {
    let mut c = CursorBuilder::new()
        .named("n1")
        .starting_after(1, None)
        .build(Some(create_key(3, 3)));
    match c.next_step() {
        Step::Seek { key } => assert_eq!(create_key(3, 3), key),
        _ => panic!("expected a seek"),
    }
    let row = Row { key: create_key(4, 0), value: vec![] };
    match c.positioned(Some(row)) {
        Step::Deliver { offset, .. } => assert_eq!(Some("n1".to_string()), offset),
        _ => panic!("expected a delivery"),
    }
    assert!(matches!(c.next_step(), Step::Advance));
    assert!(matches!(c.positioned(None), Step::Finish));
}

#[test]
fn named_cursor_keeps_the_offset_it_was_built_with() {
    let mut store = MemLog::new();
    store.add(&ev(10, 1, "e1"));
    store.add(&ev(20, 1, "e2"));
    store.add(&ev(30, 1, "e3"));
    store.offsets.insert("K".to_string(), create_key(10, 1));
    let mut c = open(CursorBuilder::new().named("K"), &store);
    // Another cursor of the same name moves the offset on before the first
    // row is asked for; this cursor still starts after the offset it read.
    store.offsets.insert("K".to_string(), create_key(30, 1));
    let rows = drain(&mut c, &mut store, &mut VecDeque::new());
    assert_eq!(vec!["e2", "e3"], descriptions(&rows));
}

#[test]
fn named_cursor_without_stored_offset_starts_at_the_first_row() {
    let c = CursorBuilder::new().named("fresh").build(None);
    assert!(matches!(c.floor, Floor::Open));
    assert_eq!(Some("fresh".to_string()), c.offset_name);
}

#[test]
fn empty_name_is_no_consumer() {
    let c = CursorBuilder::new().named("").build(Some(create_key(1, 1)));
    assert!(c.offset_name.is_none());
    assert_eq!(Phase::Seek, c.phase);
    assert!(matches!(c.floor, Floor::Open));
}
