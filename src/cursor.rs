//! Cursors over the log, as a state machine.
//!
//! A cursor decides; a driver that holds the store and the tail channel acts.
//! The driver reads a named consumer's stored offset when it builds the
//! cursor. Then it asks the cursor for a [`Step`], carries it out, and hands
//! the outcome back: the row that the store's iterator stands on, or the
//! tickle that woke it.
use vstd::prelude::*;
use crate::key::{
    bytes_before, create_key, create_key_after, event_before, key_before, key_order_follows_events,
    lemma_before_asymmetric, log_key,
};

verus! {

/// One row of the log: its key and its stored value.
pub struct Row {
    pub key: Vec<u8>,
    pub value: Vec<u8>,
}

/// Where a scan may begin.
pub enum Floor {
    /// At the first row of the log.
    Open,
    /// Strictly after this key.
    After(Vec<u8>),
    /// At this key or after it.
    From(Vec<u8>),
}

/// What a cursor is waiting to do.
#[derive(PartialEq, Eq, Structural, Clone, Copy, Debug)]
pub enum Phase {
    /// The next scan starts with a seek to the floor.
    Seek,
    /// A row was handed out; the next scan moves one row on.
    Advance,
    /// At the end of the log, blocked on the tail channel.
    Waiting,
    /// Done: nothing more is handed out.
    Finished,
}

/// What the driver must do next.
pub enum Step {
    /// Put the store's iterator on the first row; answer with `Cursor::positioned`.
    SeekFirst,
    /// Put the store's iterator on the first row at or after `key`; answer
    /// with `Cursor::positioned`.
    Seek { key: Vec<u8> },
    /// Move the store's iterator one row on; answer with `Cursor::positioned`.
    Advance,
    /// Write `offsets[name] = row.key` if `offset` is `Some(name)`, then hand
    /// the row to the consumer.
    Deliver { row: Row, offset: Option<String> },
    /// Block on the tail channel; answer with `Cursor::tickled`.
    Wait,
    /// The cursor is done.
    Finish,
}

/// Whether a scan from `floor` may hand out the row with key `k`.
pub open spec fn admits(floor: Floor, k: Seq<u8>) -> bool {
    match floor {
        Floor::Open => true,
        Floor::After(f) => bytes_before(f@, k),
        Floor::From(f) => !bytes_before(k, f@),
    }
}

/// The floor `f2` admits no row that `f1` does not: it is at least as high.
pub open spec fn floor_within(f1: Floor, f2: Floor) -> bool {
    forall|k: Seq<u8>| #[trigger] admits(f2, k) ==> admits(f1, k)
}

/// The step that starts a scan from `floor`.
pub open spec fn seek_step(floor: Floor, r: Step) -> bool {
    match floor {
        Floor::Open => r is SeekFirst,
        Floor::After(f) => r is Seek && r->key@ == f@,
        Floor::From(f) => r is Seek && r->key@ == f@,
    }
}

/// Configuration of a cursor, chosen before it is built.
pub struct CursorBuilder {
    pub name: String,
    pub start_time: Option<u128>,
    pub start_id: Option<u128>,
    pub tailing: bool,
}

/// A cursor over the log, in one of three modes: one-shot, resumed by name,
/// or tailing.
pub struct Cursor {
    /// The consumer's name, when its offset is read and kept.
    pub offset_name: Option<String>,
    /// Whether the end of the log blocks on the tail channel.
    pub tailing: bool,
    /// Where the next scan may begin: after the last row handed out.
    pub floor: Floor,
    pub phase: Phase,
}

impl CursorBuilder {
    /// A builder for a one-shot cursor from the first row.
    pub fn new() -> (r: CursorBuilder)
        ensures
            r.name@.len() == 0,
            r.start_time is None,
            r.start_id is None,
            !r.tailing,
    {
        CursorBuilder { name: String::new(), start_time: None, start_id: None, tailing: false }
    }

    /// At the end of the log, block for a tickle instead of finishing.
    pub fn tailing(self) -> (r: CursorBuilder)
        ensures
            r.tailing,
            r.name == self.name,
            r.start_time == self.start_time,
            r.start_id == self.start_id,
    {
        CursorBuilder { tailing: true, ..self }
    }

    /// Resume from, and keep, the offset stored under `name`. An empty name
    /// names no consumer.
    pub fn named(self, name: &str) -> (r: CursorBuilder)
        ensures
            r.name@ == name@,
            r.tailing == self.tailing,
            r.start_time == self.start_time,
            r.start_id == self.start_id,
    {
        CursorBuilder { name: name.to_owned(), ..self }
    }

    /// Start strictly after `(time, id)`, or with no id at or after the first
    /// key of `time`. A name, when one is given, takes precedence.
    pub fn starting_after(self, time: u128, id: Option<u128>) -> (r: CursorBuilder)
        ensures
            r.start_time == Some(time),
            r.start_id == id,
            r.name == self.name,
            r.tailing == self.tailing,
    {
        CursorBuilder { start_time: Some(time), start_id: id, ..self }
    }

    /// The cursor so configured. For a named consumer, `stored` is
    /// `offsets[name]` as read now, when the cursor is built: the cursor
    /// starts strictly after it, or at the first row when none is stored.
    /// Without a name, `stored` is not used.
    pub fn build(self, stored: Option<Vec<u8>>) -> (r: Cursor)
        ensures
            r.tailing == self.tailing,
            r.phase == Phase::Seek,
            self.name@.len() > 0 ==> {
                &&& r.offset_name == Some(self.name)
                &&& match stored {
                    Some(k) => r.floor is After && r.floor->After_0@ == k@,
                    None => r.floor is Open,
                }
            },
            self.name@.len() == 0 ==> {
                &&& r.offset_name is None
                &&& match (self.start_time, self.start_id) {
                    (Some(t), Some(i)) => r.floor is After && r.floor->After_0@ == log_key(t, i),
                    (Some(t), None) => r.floor is From && r.floor->From_0@ == log_key(t, 0),
                    (None, _) => r.floor is Open,
                }
            },
    {
        if !self.name.as_str().is_empty() {
            let floor = match stored {
                Some(k) => Floor::After(k),
                None => Floor::Open,
            };
            return Cursor {
                offset_name: Some(self.name),
                tailing: self.tailing,
                floor,
                phase: Phase::Seek,
            };
        }
        let floor = match self.start_time {
            Some(t) => match self.start_id {
                Some(i) => Floor::After(create_key(t, i)),
                None => Floor::From(create_key_after(t)),
            },
            None => Floor::Open,
        };
        Cursor { offset_name: None, tailing: self.tailing, floor, phase: Phase::Seek }
    }
}

/// A copy of a byte string.
fn copy_bytes(b: &Vec<u8>) -> (r: Vec<u8>)
    ensures
        r@ == b@,
{
    let mut r: Vec<u8> = Vec::new();
    let mut i: usize = 0;
    while i < b.len()
        invariant
            0 <= i <= b@.len(),
            r@ == b@.subrange(0, i as int),
        decreases b@.len() - i,
    {
        r.push(b[i]);
        i += 1;
        assert(r@ =~= b@.subrange(0, i as int));
    }
    assert(b@.subrange(0, i as int) =~= b@);
    r
}

impl Cursor {
    /// The step that starts a scan from the floor.
    fn seek(&self) -> (r: Step)
        ensures
            seek_step(self.floor, r),
    {
        match &self.floor {
            Floor::Open => Step::SeekFirst,
            Floor::After(k) => Step::Seek { key: copy_bytes(k) },
            Floor::From(k) => Step::Seek { key: copy_bytes(k) },
        }
    }

    /// The step that begins the next row: seek, move on, block again, or
    /// finish.
    pub fn next_step(&mut self) -> (r: Step)
        ensures
            *final(self) == *old(self),
            old(self).phase == Phase::Seek ==> seek_step(old(self).floor, r),
            old(self).phase == Phase::Advance ==> r is Advance,
            old(self).phase == Phase::Waiting ==> r is Wait,
            old(self).phase == Phase::Finished ==> r is Finish,
    {
        match self.phase {
            Phase::Seek => self.seek(),
            Phase::Advance => Step::Advance,
            Phase::Waiting => Step::Wait,
            Phase::Finished => Step::Finish,
        }
    }

    /// The store's iterator stands on `row`, or past the end. A row beyond
    /// the floor is handed out and becomes the floor; any other row is
    /// passed over. Past the end, a tailing cursor blocks, another finishes.
    pub fn positioned(&mut self, row: Option<Row>) -> (r: Step)
        ensures
            final(self).offset_name == old(self).offset_name,
            final(self).tailing == old(self).tailing,
            floor_within(old(self).floor, final(self).floor),
            old(self).phase == Phase::Finished ==> r is Finish && *final(self) == *old(self),
            old(self).phase != Phase::Finished ==> match row {
                Some(x) => if admits(old(self).floor, x.key@) {
                    &&& r is Deliver
                    &&& r->row == x
                    &&& r->offset == old(self).offset_name
                    &&& final(self).floor is After
                    &&& final(self).floor->After_0@ == x.key@
                    &&& final(self).phase == Phase::Advance
                } else {
                    &&& r is Advance
                    &&& *final(self) == *old(self)
                },
                None => if old(self).tailing {
                    &&& r is Wait
                    &&& final(self).phase == Phase::Waiting
                    &&& final(self).floor == old(self).floor
                } else {
                    &&& r is Finish
                    &&& final(self).phase == Phase::Finished
                    &&& final(self).floor == old(self).floor
                },
            },
    {
        if self.phase == Phase::Finished {
            return Step::Finish;
        }
        match row {
            None => {
                if self.tailing {
                    self.phase = Phase::Waiting;
                    Step::Wait
                } else {
                    self.phase = Phase::Finished;
                    Step::Finish
                }
            },
            Some(x) => {
                let beyond = match &self.floor {
                    Floor::Open => true,
                    Floor::After(f) => key_before(f.as_slice(), x.key.as_slice()),
                    Floor::From(f) => !key_before(x.key.as_slice(), f.as_slice()),
                };
                if !beyond {
                    return Step::Advance;
                }
                let ghost old_floor = self.floor;
                self.floor = Floor::After(copy_bytes(&x.key));
                self.phase = Phase::Advance;
                proof {
                    assert forall|k: Seq<u8>| #[trigger] admits(self.floor, k) implies admits(
                        old_floor,
                        k,
                    ) by {
                        lemma_floor_rises(old_floor, x.key@, k);
                    }
                }
                let offset = match &self.offset_name {
                    Some(n) => Some(n.clone()),
                    None => None,
                };
                Step::Deliver { row: x, offset }
            },
        }
    }

    /// The tail channel answered: `true` resumes with a seek from the floor,
    /// `false` (or a closed channel) finishes the cursor.
    pub fn tickled(&mut self, more: bool) -> (r: Step)
        ensures
            final(self).offset_name == old(self).offset_name,
            final(self).tailing == old(self).tailing,
            final(self).floor == old(self).floor,
            old(self).phase == Phase::Finished ==> r is Finish && *final(self) == *old(self),
            old(self).phase != Phase::Finished && more ==> final(self).phase == Phase::Seek
                && seek_step(old(self).floor, r),
            !more ==> final(self).phase == Phase::Finished && r is Finish,
    {
        if self.phase == Phase::Finished {
            return Step::Finish;
        }
        if more {
            self.phase = Phase::Seek;
            self.seek()
        } else {
            self.phase = Phase::Finished;
            Step::Finish
        }
    }
}

/// A row admitted from a floor raises the floor to its key: whatever is
/// strictly after that key was admitted from the old floor too.
pub proof fn lemma_floor_rises(floor: Floor, x: Seq<u8>, k: Seq<u8>)
    requires
        admits(floor, x),
        bytes_before(x, k),
    ensures
        admits(floor, k),
{
    match floor {
        Floor::Open => {},
        Floor::After(f) => {
            crate::key::lemma_before_transitive(f@, x, k);
        },
        Floor::From(f) => {
            if bytes_before(k, f@) {
                crate::key::lemma_before_transitive(x, k, f@);
            }
        },
    }
}

/// Floors only rise: two steps that each keep the floor within the one
/// before keep it within the first.
pub proof fn lemma_floor_within_transitive(f1: Floor, f2: Floor, f3: Floor)
    requires
        floor_within(f1, f2),
        floor_within(f2, f3),
    ensures
        floor_within(f1, f3),
{
}

/// Named resume: a fresh cursor for a consumer, built from the stored offset
/// `k` (its floor is then strictly after `k`), hands out later, at a floor
/// within that one, only rows whose keys are strictly after `k`.
pub proof fn named_resume_yields_later(k: Seq<u8>, fresh: Cursor, later: Cursor, x: Seq<u8>)
    requires
        fresh.floor is After,
        fresh.floor->After_0@ == k,
        floor_within(fresh.floor, later.floor),
        admits(later.floor, x),
    ensures
        bytes_before(k, x),
{
}

/// Cursor order: once a cursor has handed out the event `(t2, i2)` (its floor
/// is then strictly after that event's key), it never hands out an event
/// `(t1, i1)` that comes before it, so of two events the earlier is handed
/// out first.
pub proof fn earlier_event_never_follows(
    t1: u128,
    i1: u128,
    t2: u128,
    i2: u128,
    handed: Cursor,
    later: Cursor,
)
    requires
        event_before(t1, i1, t2, i2),
        handed.floor is After,
        handed.floor->After_0@ == log_key(t2, i2),
        floor_within(handed.floor, later.floor),
    ensures
        !admits(later.floor, log_key(t1, i1)),
{
    key_order_follows_events(t1, i1, t2, i2);
    if admits(later.floor, log_key(t1, i1)) {
        lemma_before_asymmetric(log_key(t1, i1), log_key(t2, i2));
    }
}

/// At-least-once delivery: when the offset stored for a consumer is the key
/// `k0` of an earlier row than `k` (the offset of `k` was never written, say
/// because the process stopped after handing `k` out), a cursor resumed
/// from that offset admits `k` again.
pub proof fn unrecorded_row_is_replayed(k0: Seq<u8>, k: Seq<u8>, resumed: Cursor)
    requires
        bytes_before(k0, k),
        resumed.floor is After,
        resumed.floor->After_0@ == k0,
    ensures
        admits(resumed.floor, k),
{
}

} // verus!
