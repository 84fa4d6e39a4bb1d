//! The coordinator's decisions.
//!
//! The coordinator selects over every producer's outbound channel and over a
//! signal channel. A driver owns the selector, the log and the threads; it
//! hands each wake-up to a [`Coordinator`] and carries out the [`Action`]
//! that comes back, for as long as `running` holds.
use vstd::prelude::*;
use crate::event::Event;

verus! {

/// Who sends on a registered channel.
#[derive(PartialEq, Eq, Structural, Clone, Copy, Debug)]
pub enum Producer {
    Waiter,
    Notifier,
}

/// What the driver must do.
pub enum Action {
    /// Nothing; select again.
    Continue,
    /// Leave the loop and shut down.
    Stop,
    /// Add the event to the log, and only then tickle every notifier.
    Append(Event),
    /// Remove this channel from the selector.
    Deregister(usize),
}

/// The coordinator's state: which channels are still registered, and how
/// many of them belong to waiters.
pub struct Coordinator {
    pub producers: Vec<Producer>,
    pub registered: Vec<bool>,
    pub waiters_pending: usize,
    pub stopped: bool,
}

/// How many of the first `n` channels are registered waiter channels.
pub open spec fn pending_waiters(producers: Seq<Producer>, registered: Seq<bool>, n: int) -> nat
    decreases n,
{
    if n <= 0 {
        0
    } else {
        pending_waiters(producers, registered, n - 1) + if registered[n - 1] && producers[n - 1]
            == Producer::Waiter {
            1nat
        } else {
            0nat
        }
    }
}

/// How many of the first `n` producers are waiters.
pub open spec fn count_waiters(producers: Seq<Producer>, n: int) -> nat
    decreases n,
{
    if n <= 0 {
        0
    } else {
        count_waiters(producers, n - 1) + if producers[n - 1] == Producer::Waiter {
            1nat
        } else {
            0nat
        }
    }
}

/// Unregistering one registered waiter channel lowers the count by one;
/// changing any other entry leaves it as it was.
proof fn lemma_pending_after_update(
    producers: Seq<Producer>,
    registered: Seq<bool>,
    i: int,
    n: int,
)
    requires
        0 <= i < registered.len(),
        0 <= n <= registered.len(),
        producers.len() == registered.len(),
    ensures
        pending_waiters(producers, registered.update(i, false), n) == if i < n && registered[i]
            && producers[i] == Producer::Waiter {
            pending_waiters(producers, registered, n) - 1
        } else {
            pending_waiters(producers, registered, n) as int
        },
    decreases n,
{
    if n > 0 {
        lemma_pending_after_update(producers, registered, i, n - 1);
    }
}

proof fn lemma_pending_all_registered(producers: Seq<Producer>, registered: Seq<bool>, n: int)
    requires
        0 <= n <= registered.len(),
        forall|j: int| 0 <= j < n ==> #[trigger] registered[j],
    ensures
        pending_waiters(producers, registered, n) == count_waiters(producers, n),
    decreases n,
{
    if n > 0 {
        lemma_pending_all_registered(producers, registered, n - 1);
    }
}

impl Coordinator {
    /// `waiters_pending` counts the waiter channels still registered.
    pub open spec fn wf(&self) -> bool {
        &&& self.producers@.len() == self.registered@.len()
        &&& self.waiters_pending == pending_waiters(
            self.producers@,
            self.registered@,
            self.registered@.len() as int,
        )
    }

    /// A coordinator with every channel registered, channel `i` sent on by
    /// `producers[i]`.
    pub fn new(producers: Vec<Producer>) -> (r: Coordinator)
        ensures
            r.wf(),
            r.producers@ == producers@,
            r.registered@.len() == producers@.len(),
            forall|i: int| 0 <= i < producers@.len() ==> #[trigger] r.registered@[i],
            r.waiters_pending == count_waiters(producers@, producers@.len() as int),
            !r.stopped,
    {
        let mut registered: Vec<bool> = Vec::new();
        let mut waiters: usize = 0;
        let mut i: usize = 0;
        while i < producers.len()
            invariant
                0 <= i <= producers@.len(),
                registered@.len() == i,
                forall|j: int| 0 <= j < i ==> #[trigger] registered@[j],
                waiters == count_waiters(producers@, i as int),
                waiters <= i,
            decreases producers@.len() - i,
        {
            if producers[i] == Producer::Waiter {
                waiters += 1;
            }
            registered.push(true);
            i += 1;
        }
        proof {
            lemma_pending_all_registered(producers@, registered@, i as int);
        }
        Coordinator { producers, registered, waiters_pending: waiters, stopped: false }
    }

    /// The loop goes on while no terminal signal came and some waiter has
    /// not finished.
    pub fn running(&self) -> (r: bool)
        ensures
            r == (!self.stopped && self.waiters_pending > 0),
    {
        !self.stopped && self.waiters_pending > 0
    }

    /// A signal arrived. A hangup, or a lost signal (`hangup` then holds too),
    /// is passed over; any other signal stops the loop.
    pub fn on_signal(&mut self, hangup: bool) -> (r: Action)
        requires
            old(self).wf(),
        ensures
            final(self).wf(),
            final(self).producers == old(self).producers,
            final(self).registered == old(self).registered,
            final(self).waiters_pending == old(self).waiters_pending,
            hangup ==> r is Continue && final(self).stopped == old(self).stopped,
            !hangup ==> r is Stop && final(self).stopped,
    {
        if hangup {
            Action::Continue
        } else {
            self.stopped = true;
            Action::Stop
        }
    }

    /// A producer sent an event: it goes to the log, then to the notifiers.
    pub fn on_event(&mut self, event: Event) -> (r: Action)
        requires
            old(self).wf(),
        ensures
            *final(self) == *old(self),
            r == Action::Append(event),
    {
        Action::Append(event)
    }

    /// Channel `channel` is finished: its producer sent its last message, or
    /// the channel is disconnected. A registered channel is deregistered;
    /// when it is a waiter's, one fewer waiter is pending.
    pub fn on_closed(&mut self, channel: usize) -> (r: Action)
        requires
            old(self).wf(),
        ensures
            final(self).wf(),
            final(self).producers == old(self).producers,
            final(self).stopped == old(self).stopped,
            if channel < old(self).registered@.len() && old(self).registered@[channel as int] {
                &&& r == Action::Deregister(channel)
                &&& final(self).registered@ == old(self).registered@.update(channel as int, false)
                &&& final(self).waiters_pending == if old(self).producers@[channel as int]
                    == Producer::Waiter {
                    old(self).waiters_pending - 1
                } else {
                    old(self).waiters_pending as int
                }
            } else {
                &&& r is Continue
                &&& final(self).registered == old(self).registered
                &&& final(self).waiters_pending == old(self).waiters_pending
            },
    {
        if channel >= self.registered.len() || !self.registered[channel] {
            return Action::Continue;
        }
        proof {
            lemma_pending_after_update(
                self.producers@,
                self.registered@,
                channel as int,
                self.registered@.len() as int,
            );
        }
        self.registered.set(channel, false);
        if self.producers[channel] == Producer::Waiter {
            self.waiters_pending = self.waiters_pending - 1;
        }
        Action::Deregister(channel)
    }
}

proof fn lemma_pending_zero(producers: Seq<Producer>, registered: Seq<bool>, n: int)
    requires
        0 <= n <= registered.len(),
        producers.len() == registered.len(),
    ensures
        pending_waiters(producers, registered, n) == 0 <==> forall|j: int|
            0 <= j < n ==> !(#[trigger] registered[j] && producers[j] == Producer::Waiter),
    decreases n,
{
    if n > 0 {
        lemma_pending_zero(producers, registered, n - 1);
    }
}

/// The loop ends when every waiter has finished: no waiter is pending exactly
/// when no waiter's channel is still registered.
pub proof fn waiters_done_when_none_registered(c: Coordinator)
    requires
        c.wf(),
    ensures
        c.waiters_pending == 0 <==> forall|j: int|
            0 <= j < c.registered@.len() ==> !(#[trigger] c.registered@[j] && c.producers@[j]
                == Producer::Waiter),
{
    lemma_pending_zero(c.producers@, c.registered@, c.registered@.len() as int);
}

} // verus!
