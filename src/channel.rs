//! The outbound channel of a producer: `Some(event)` for each event it
//! publishes, then one terminal `None` when it is done.
use vstd::prelude::*;
use crate::event::{Event, EventBus};

verus! {

#[verifier::external_type_specification]
#[verifier::external_body]
#[verifier::reject_recursive_types(T)]
pub struct ExSender<T>(crossbeam::channel::Sender<T>);

#[verifier::external_type_specification]
#[verifier::external_body]
#[verifier::reject_recursive_types(T)]
pub struct ExReceiver<T>(crossbeam::channel::Receiver<T>);

/// Relies on `crossbeam::channel::unbounded`: a new channel with no capacity
/// bound, as its two ends.
#[verifier::external_body]
fn unbounded_channel() -> (r: (
    crossbeam::channel::Sender<Option<Event>>,
    crossbeam::channel::Receiver<Option<Event>>,
)) {
    crossbeam::channel::unbounded()
}

/// Relies on `crossbeam::channel::Sender::send`: `true` when the message was
/// queued, `false` when every receiver is gone. Which one depends on other
/// threads, so nothing is stated.
#[verifier::external_body]
fn send_message(sender: &crossbeam::channel::Sender<Option<Event>>, message: Option<Event>) -> (r:
    bool)
    opens_invariants none
    no_unwind
{
    sender.send(message).is_ok()
}

/// The publishing end of a producer's channel.
pub struct EventChannel {
    sender: crossbeam::channel::Sender<Option<Event>>,
    closing: Closing,
}

/// Whether the terminal `None` was sent, and a count of those sent.
struct Closing {
    done: bool,
    terminals: Ghost<nat>,
}

impl EventChannel {
    /// One terminal `None` has been sent once the channel is done, none before.
    #[verifier::type_invariant]
    spec fn inv(&self) -> bool {
        self.closing.terminals@ == if self.closing.done {
            1nat
        } else {
            0nat
        }
    }

    /// A fresh channel: its publishing end, not done, and its receiving end.
    pub fn new() -> (r: (EventChannel, crossbeam::channel::Receiver<Option<Event>>))
        ensures
            !r.0.is_done(),
            r.0.terminals_sent() == 0,
    {
        let (sender, receiver) = unbounded_channel();
        (EventChannel { sender, closing: Closing { done: false, terminals: Ghost(0) } }, receiver)
    }

    pub closed spec fn is_done(&self) -> bool {
        self.closing.done
    }

    /// How many terminal `None`s this end has handed to the channel.
    pub closed spec fn terminals_sent(&self) -> nat {
        self.closing.terminals@
    }

    /// Whether the terminal `None` has been sent. At most one is ever sent:
    /// exactly one once the channel is done, none before.
    pub fn finished(&self) -> (r: bool)
        ensures
            r == self.is_done(),
            self.terminals_sent() == if r {
                1nat
            } else {
                0nat
            },
    {
        proof {
            use_type_invariant(self);
        }
        self.closing.done
    }

    /// Send the terminal `None`, once: the first call sends it, a channel
    /// already done sends nothing more. A receiver that is gone is not an
    /// error.
    pub fn done(&mut self)
        ensures
            final(self).is_done(),
            final(self).terminals_sent() == 1,
            !old(self).is_done() ==> final(self).terminals_sent() == old(self).terminals_sent()
                + 1,
            old(self).is_done() ==> *final(self) == *old(self),
        opens_invariants none
        no_unwind
    {
        proof {
            use_type_invariant(&*self);
        }
        if !self.closing.done {
            let _ = send_message(&self.sender, None);
            self.closing = Closing { done: true, terminals: Ghost(self.closing.terminals@ + 1) };
        }
    }
}

impl EventBus for EventChannel {
    /// Send `Some(event)`; when the receiver is gone the event is dropped.
    fn publish(&self, event: Event) {
        let _ = send_message(&self.sender, Some(event));
    }
}

impl Drop for EventChannel {
    fn drop(&mut self)
        opens_invariants none
        no_unwind
    {
        self.done();
    }
}

} // verus!
