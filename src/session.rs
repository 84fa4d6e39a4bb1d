//! Decisions of a WebSocket client session, and the framing of the event list
//! that the HTTP endpoint returns.
//!
//! The server's driver keeps the clock and the socket: it tells the session
//! when the client was heard from and when a heartbeat is due, and it sends
//! what the session's cursor yields.
use vstd::prelude::*;
use crate::cursor::CursorBuilder;
use crate::key::{key_denotes, parse_key};

verus! {

/// How long a client may stay silent before the session ends, in microseconds.
pub const CLIENT_TIMEOUT_MICROS: u128 = 10_000_000;

/// Why a `set_offset` command was refused.
#[derive(PartialEq, Eq, Structural, Clone, Copy, Debug)]
pub enum OffsetError {
    /// The key is not `<decimal time>|<uuid text>`.
    MalformedKey,
}

/// What a heartbeat calls for.
pub enum Heartbeat {
    /// The client has gone away: end the session.
    Stop,
    /// No position is set yet: nothing to send.
    Idle,
    /// Send what a cursor so built yields, then report each event with `sent`.
    Scan(CursorBuilder),
}

/// A session's state: when the client was last heard from (on the driver's
/// monotonic clock, in microseconds) and the last event it was sent.
pub struct Session {
    pub last_heard: u128,
    pub last_time: Option<u128>,
    pub last_id: Option<u128>,
}

impl Session {
    /// A session whose client was just heard from, with no position yet.
    pub fn new(now: u128) -> (r: Session)
        ensures
            r.last_heard == now,
            r.last_time is None,
            r.last_id is None,
    {
        Session { last_heard: now, last_time: None, last_id: None }
    }

    /// The client sent something.
    pub fn heard(&mut self, now: u128)
        ensures
            final(self).last_heard == now,
            final(self).last_time == old(self).last_time,
            final(self).last_id == old(self).last_id,
    {
        self.last_heard = now;
    }

    /// Whether the client has been silent for longer than the timeout.
    pub open spec fn timed_out(&self, now: u128) -> bool {
        now > self.last_heard && now - self.last_heard > CLIENT_TIMEOUT_MICROS
    }

    /// A heartbeat is due: end a silent session, or scan on from the last
    /// event sent (strictly after it).
    pub fn heartbeat(&self, now: u128) -> (r: Heartbeat)
        ensures
            self.timed_out(now) ==> r is Stop,
            !self.timed_out(now) && self.last_time is None ==> r is Idle,
            !self.timed_out(now) && self.last_time is Some ==> {
                &&& r is Scan
                &&& r->Scan_0.name@.len() == 0
                &&& !r->Scan_0.tailing
                &&& r->Scan_0.start_time == self.last_time
                &&& r->Scan_0.start_id == self.last_id
            },
    {
        if now > self.last_heard && now - self.last_heard > CLIENT_TIMEOUT_MICROS {
            return Heartbeat::Stop;
        }
        match self.last_time {
            None => Heartbeat::Idle,
            Some(t) => Heartbeat::Scan(CursorBuilder::new().starting_after(t, self.last_id)),
        }
    }

    /// The event `(time, id)` was sent: the next scan starts after it.
    pub fn sent(&mut self, time: u128, id: u128)
        ensures
            final(self).last_heard == old(self).last_heard,
            final(self).last_time == Some(time),
            final(self).last_id == Some(id),
    {
        self.last_time = Some(time);
        self.last_id = Some(id);
    }

    /// The client asked to be sent what follows the log key `key`. A
    /// malformed key is refused and leaves the position as it was.
    pub fn set_offset(&mut self, key: &[u8]) -> (r: Result<(), OffsetError>)
        ensures
            final(self).last_heard == old(self).last_heard,
            r is Ok <==> exists|t: u128, i: u128| key_denotes(key@, t, i),
            r is Ok ==> key_denotes(key@, final(self).last_time->0, final(self).last_id->0)
                && final(self).last_time is Some && final(self).last_id is Some,
            r is Err ==> r == Err::<(), OffsetError>(OffsetError::MalformedKey) && final(self).last_time
                == old(self).last_time && final(self).last_id == old(self).last_id,
    {
        match parse_key(key) {
            Some((t, i)) => {
                self.last_time = Some(t);
                self.last_id = Some(i);
                Ok(())
            },
            None => Err(OffsetError::MalformedKey),
        }
    }
}

/// The items joined by commas, in square brackets.
pub open spec fn bracketed(items: Seq<Seq<u8>>) -> Seq<u8> {
    seq![91u8] + joined(items) + seq![93u8]
}

/// The items joined by commas.
pub open spec fn joined(items: Seq<Seq<u8>>) -> Seq<u8>
    decreases items.len(),
{
    if items.len() == 0 {
        seq![]
    } else if items.len() == 1 {
        items[0]
    } else {
        joined(items.drop_last()) + seq![44u8] + items.last()
    }
}

/// A JSON array of already encoded JSON values: `[` then the values joined by
/// `,` then `]`.
pub fn json_array(items: &Vec<Vec<u8>>) -> (r: Vec<u8>)
    ensures
        r@ == bracketed(items@.map_values(|v: Vec<u8>| v@)),
{
    let ghost views = items@.map_values(|v: Vec<u8>| v@);
    let mut out: Vec<u8> = Vec::new();
    out.push(91u8);
    let mut i: usize = 0;
    while i < items.len()
        invariant
            0 <= i <= items@.len(),
            views == items@.map_values(|v: Vec<u8>| v@),
            out@ == seq![91u8] + joined(views.subrange(0, i as int)),
        decreases items@.len() - i,
    {
        let ghost before = out@;
        if i > 0 {
            out.push(44u8);
        }
        let item = &items[i];
        let mut j: usize = 0;
        let ghost mid = out@;
        while j < item.len()
            invariant
                0 <= j <= item@.len(),
                out@ == mid + item@.subrange(0, j as int),
            decreases item@.len() - j,
        {
            out.push(item[j]);
            j += 1;
            assert(out@ =~= mid + item@.subrange(0, j as int));
        }
        assert(item@.subrange(0, j as int) =~= item@);
        proof {
            let s = views.subrange(0, i + 1);
            assert(s.drop_last() =~= views.subrange(0, i as int));
            assert(s.last() == item@);
            if i == 0 {
                assert(views.subrange(0, 0) =~= Seq::<Seq<u8>>::empty());
                assert(out@ =~= seq![91u8] + joined(s));
            } else {
                assert(out@ =~= seq![91u8] + joined(s));
            }
        }
        i += 1;
    }
    assert(views.subrange(0, i as int) =~= views);
    out.push(93u8);
    out
}

} // verus!
