//! The pump-until-signaled primitive.
//!
//! [`wait_with_pump`] blocks until a producer delivers a value through a
//! channel, while draining and dispatching the calling thread's message queue
//! so that pending asynchronous work — including the very callback that will
//! produce the awaited value — can complete. A naive blocking receive would
//! starve dispatch and deadlock; a naive message loop would never notice the
//! delivered value. The loop interleaves a non-blocking channel poll with one
//! blocking retrieval per cycle.
//!
//! The thread's queue and the channel are ambient, thread-affine resources;
//! they enter the loop as one injectable capability, the [`MessagePump`]
//! trait, so the loop is stated and verified over the capability's abstract
//! state and can be exercised against a deterministic scripted queue.

use vstd::prelude::*;

use crate::error::Error;

verus! {

/// A message retrieved from the thread's queue, identified by its routing id.
#[derive(Clone, Copy, Debug, PartialEq, Eq, Structural)]
pub struct Msg {
    pub id: u64,
}

/// What one blocking retrieval against the thread's queue reports.
#[derive(Debug)]
pub enum Retrieval {
    /// The retrieval mechanism itself failed; the payload is the thread's
    /// native result code.
    Fatal(i32),
    /// A clean termination request: stop pumping at once.
    Quit,
    /// An ordinary message, to be translated and dispatched.
    Message(Msg),
}

/// One entry of a queue's future: what the next retrieval returns, and — for
/// an ordinary message — the value, if any, that is on the channel by the
/// time that retrieval completes (a producer on another thread places the
/// value and then posts the message as a wake-up nudge, or the dispatched
/// callback itself writes it).
pub enum QueueEvent<T> {
    /// The retrieval reports an unrecoverable native fault.
    Fatal(i32),
    /// The retrieval reports a clean termination request.
    Quit,
    /// The retrieval yields an ordinary message.
    Message { msg: Msg, delivers: Option<T> },
}

/// An ordinary message whose cycle leaves the channel empty: the kind of
/// traffic the loop dispatches and otherwise ignores.
pub open spec fn plain_message<T>(ev: QueueEvent<T>) -> bool {
    ev is Message && ev->delivers is None
}

/// What the pump observes of a retrieval: the event with the channel effect
/// stripped off.
pub open spec fn retrieved_of<T>(ev: QueueEvent<T>) -> Retrieval {
    match ev {
        QueueEvent::Fatal(code) => Retrieval::Fatal(code),
        QueueEvent::Quit => Retrieval::Quit,
        QueueEvent::Message { msg, delivers: _ } => Retrieval::Message(msg),
    }
}

/// The channel contents after one retrieval: a value already present stays
/// (the channel holds at most one value, first in first out), otherwise an
/// ordinary message may have delivered one.
pub open spec fn channel_after<T>(chan: Option<T>, ev: QueueEvent<T>) -> Option<T> {
    if chan is Some {
        chan
    } else {
        match ev {
            QueueEvent::Message { msg: _, delivers } => delivers,
            _ => chan,
        }
    }
}

/// The calling thread's channel and message queue, as one injectable
/// capability.
///
/// `channel()` is the value, if any, a poll would return now; `queue()` is
/// the sequence of events the queue has in store; `dispatched()` is the log
/// of every message routed to its handler so far.
pub trait MessagePump<T> {
    /// The value currently on the channel, if any.
    spec fn channel(&self) -> Option<T>;

    /// The events the queue will yield, in order.
    spec fn queue(&self) -> Seq<QueueEvent<T>>;

    /// Every message dispatched so far, in dispatch order.
    spec fn dispatched(&self) -> Seq<Msg>;

    /// Non-blocking channel poll: takes the pending value if one is present.
    fn try_recv(&mut self) -> (r: Option<T>)
        ensures
            r == old(self).channel(),
            final(self).channel() is None,
            final(self).queue() == old(self).queue(),
            final(self).dispatched() == old(self).dispatched(),
    ;

    /// Blocking retrieval of the next message. The queue must have an event
    /// in store: a retrieval against a queue with none would block forever.
    fn get_message(&mut self) -> (r: Retrieval)
        requires
            old(self).queue().len() > 0,
        ensures
            r == retrieved_of(old(self).queue()[0]),
            final(self).queue() == old(self).queue().skip(1),
            final(self).channel() == channel_after(old(self).channel(), old(self).queue()[0]),
            final(self).dispatched() == old(self).dispatched(),
    ;

    /// Translates a retrieved message for input devices; observably inert.
    fn translate_message(&mut self, msg: &Msg)
        ensures
            final(self).channel() == old(self).channel(),
            final(self).queue() == old(self).queue(),
            final(self).dispatched() == old(self).dispatched(),
    ;

    /// Routes a retrieved message to its registered handler.
    fn dispatch_message(&mut self, msg: &Msg)
        ensures
            final(self).channel() == old(self).channel(),
            final(self).queue() == old(self).queue(),
            final(self).dispatched() == old(self).dispatched().push(*msg),
    ;
}

/// Whether the wait resolves at all: a value is already present, or the queue
/// reaches a fatal fault, a termination request, or a delivery before running
/// dry. A queue that runs dry first models a retrieval that blocks forever —
/// by design the loop has no timeout, and the caller is responsible for
/// eventually triggering one of these.
pub open spec fn pump_live<T>(chan: Option<T>, q: Seq<QueueEvent<T>>) -> bool
    decreases q.len(),
{
    if chan is Some {
        true
    } else if q.len() == 0 {
        false
    } else {
        match q[0] {
            QueueEvent::Fatal(_) => true,
            QueueEvent::Quit => true,
            QueueEvent::Message { msg: _, delivers } => pump_live(delivers, q.skip(1)),
        }
    }
}

/// The outcome the wait resolves to: the first value the poll sees, or the
/// error of the first fatal fault or termination request, whichever the
/// cycle order reaches first.
pub open spec fn pump_outcome<T>(chan: Option<T>, q: Seq<QueueEvent<T>>) -> Result<T, Error>
    recommends
        pump_live(chan, q),
    decreases q.len(),
{
    if chan is Some {
        Ok(chan->0)
    } else if q.len() == 0 {
        arbitrary()
    } else {
        match q[0] {
            QueueEvent::Fatal(code) => Err(Error::WindowsError(code)),
            QueueEvent::Quit => Err(Error::TaskCanceled),
            QueueEvent::Message { msg: _, delivers } => pump_outcome(delivers, q.skip(1)),
        }
    }
}

/// The messages the wait dispatches before resolving, in arrival order.
pub open spec fn pump_dispatches<T>(chan: Option<T>, q: Seq<QueueEvent<T>>) -> Seq<Msg>
    decreases q.len(),
{
    if chan is Some || q.len() == 0 {
        Seq::empty()
    } else {
        match q[0] {
            QueueEvent::Fatal(_) => Seq::empty(),
            QueueEvent::Quit => Seq::empty(),
            QueueEvent::Message { msg, delivers } => seq![msg] + pump_dispatches(delivers, q.skip(1)),
        }
    }
}

/// How many retrievals the wait performs before resolving.
pub open spec fn pump_cycles<T>(chan: Option<T>, q: Seq<QueueEvent<T>>) -> nat
    decreases q.len(),
{
    if chan is Some || q.len() == 0 {
        0
    } else {
        match q[0] {
            QueueEvent::Fatal(_) => 1,
            QueueEvent::Quit => 1,
            QueueEvent::Message { msg: _, delivers } => 1 + pump_cycles(delivers, q.skip(1)),
        }
    }
}

/// Blocks until the channel yields a value, pumping the message queue
/// meanwhile.
///
/// Each cycle first polls the channel — a value already present returns at
/// once, with no retrieval — then performs one blocking retrieval: a fatal
/// fault or a termination request stops the wait with the matching error,
/// and an ordinary message is translated, dispatched, and followed by the
/// next cycle. The wait never misses a delivered value for more than one
/// cycle and dispatches every message it retrieves, in arrival order.
#[verifier::loop_isolation(false)]
pub fn wait_with_pump<T, P: MessagePump<T>>(pump: &mut P) -> (r: Result<T, Error>)
    requires
        pump_live(old(pump).channel(), old(pump).queue()),
    ensures
        r == pump_outcome(old(pump).channel(), old(pump).queue()),
        final(pump).dispatched() == old(pump).dispatched() + pump_dispatches(
            old(pump).channel(),
            old(pump).queue(),
        ),
        final(pump).queue() == old(pump).queue().skip(
            pump_cycles(old(pump).channel(), old(pump).queue()) as int,
        ),
        final(pump).channel() is None,
{
    let ghost mut consumed: int = 0;
    loop
        invariant
            pump_live(pump.channel(), pump.queue()),
            pump_outcome(pump.channel(), pump.queue()) == pump_outcome(
                old(pump).channel(),
                old(pump).queue(),
            ),
            pump.dispatched() + pump_dispatches(pump.channel(), pump.queue()) == old(
                pump,
            ).dispatched() + pump_dispatches(old(pump).channel(), old(pump).queue()),
            0 <= consumed,
            consumed + pump.queue().len() == old(pump).queue().len(),
            pump.queue() == old(pump).queue().skip(consumed),
            pump_cycles(old(pump).channel(), old(pump).queue()) == consumed + pump_cycles(
                pump.channel(),
                pump.queue(),
            ),
        decreases pump.queue().len(),
    {
        let ghost log_entry = pump.dispatched();

        if let Some(value) = pump.try_recv() {
            proof {
                assert(log_entry + Seq::<Msg>::empty() =~= log_entry);
            }
            return Ok(value);
        }

        let retrieved = pump.get_message();
        match retrieved {
            Retrieval::Fatal(code) => {
                proof {
                    assert(log_entry + Seq::<Msg>::empty() =~= log_entry);
                    old(pump).queue().lemma_seq_skip_skip(consumed);
                }
                return Err(Error::from_hresult(code));
            },
            Retrieval::Quit => {
                proof {
                    assert(log_entry + Seq::<Msg>::empty() =~= log_entry);
                    old(pump).queue().lemma_seq_skip_skip(consumed);
                }
                return Err(Error::TaskCanceled);
            },
            Retrieval::Message(msg) => {
                pump.translate_message(&msg);
                pump.dispatch_message(&msg);
                proof {
                    consumed = consumed + 1;
                    assert(log_entry.push(msg) + pump_dispatches(pump.channel(), pump.queue())
                        =~= log_entry + (seq![msg] + pump_dispatches(
                        pump.channel(),
                        pump.queue(),
                    )));
                    old(pump).queue().lemma_seq_skip_skip(consumed - 1);
                }
            },
        }
    }
}

/// Immediate delivery: a value already present on the channel when the wait
/// begins is returned as is, with no retrieval and no dispatch, whatever the
/// queue has in store.
pub proof fn lemma_immediate_delivery<T>(chan: Option<T>, q: Seq<QueueEvent<T>>)
    requires
        chan is Some,
    ensures
        pump_live(chan, q),
        pump_outcome(chan, q) == Ok::<T, Error>(chan->0),
        pump_cycles(chan, q) == 0,
        pump_dispatches(chan, q) == Seq::<Msg>::empty(),
{
}

/// Cancellation: when the channel is empty and the next retrieval reports a
/// clean termination request, the wait resolves to cancellation after that
/// one retrieval, dispatching nothing.
pub proof fn lemma_cancellation<T>(chan: Option<T>, q: Seq<QueueEvent<T>>)
    requires
        chan is None,
        q.len() > 0,
        q[0] is Quit,
    ensures
        pump_live(chan, q),
        pump_outcome(chan, q) == Err::<T, Error>(Error::TaskCanceled),
        pump_cycles(chan, q) == 1,
        pump_dispatches(chan, q) == Seq::<Msg>::empty(),
{
}

/// Fatal failure: when the channel is empty and the next retrieval reports an
/// unrecoverable fault, the wait surfaces that fault's code after that one
/// retrieval, dispatching nothing and never looking at the channel again.
pub proof fn lemma_fatal_failure<T>(chan: Option<T>, q: Seq<QueueEvent<T>>)
    requires
        chan is None,
        q.len() > 0,
        q[0] is Fatal,
    ensures
        pump_live(chan, q),
        pump_outcome(chan, q) == Err::<T, Error>(Error::WindowsError(q[0]->0)),
        pump_cycles(chan, q) == 1,
        pump_dispatches(chan, q) == Seq::<Msg>::empty(),
{
}

/// No loss: a value that reaches the channel during one retrieval cycle —
/// placed between two retrievals or delivered by the dispatched callback —
/// is observed by the very next poll and returned, after dispatching only
/// the message of that cycle.
pub proof fn lemma_no_loss<T>(chan: Option<T>, q: Seq<QueueEvent<T>>)
    requires
        chan is None,
        q.len() > 0,
        q[0] is Message,
        q[0]->delivers is Some,
    ensures
        pump_live(chan, q),
        pump_outcome(chan, q) == Ok::<T, Error>(q[0]->delivers->0),
        pump_cycles(chan, q) == 1,
        pump_dispatches(chan, q) == seq![q[0]->msg],
{
    let rest = q.skip(1);
    assert(pump_live(q[0]->delivers, rest));
    assert(pump_outcome(q[0]->delivers, rest) == Ok::<T, Error>(q[0]->delivers->0));
    assert(pump_cycles(q[0]->delivers, rest) == 0);
    assert(pump_dispatches(q[0]->delivers, rest) == Seq::<Msg>::empty());
    assert(seq![q[0]->msg] + Seq::<Msg>::empty() =~= seq![q[0]->msg]);
}

/// Eventual delivery: a producer that places one value on the channel and
/// nudges the queue is heard. If every event before index `i` is an ordinary
/// message that delivers nothing, and the event at `i` delivers a value, the
/// wait resolves to exactly that value within `i + 1` retrieval cycles.
pub proof fn lemma_eventual_delivery<T>(chan: Option<T>, q: Seq<QueueEvent<T>>, i: int)
    requires
        chan is None,
        0 <= i < q.len(),
        forall|j: int| 0 <= j < i ==> plain_message(#[trigger] q[j]),
        q[i] is Message,
        q[i]->delivers is Some,
    ensures
        pump_live(chan, q),
        pump_outcome(chan, q) == Ok::<T, Error>(q[i]->delivers->0),
        pump_cycles(chan, q) == i + 1,
    decreases i,
{
    if i == 0 {
        lemma_no_loss(chan, q);
    } else {
        let q1 = q.skip(1);
        assert(plain_message(q[0]));
        assert forall|j: int| 0 <= j < i - 1 implies plain_message(#[trigger] q1[j]) by {
            assert(plain_message(q[j + 1]));
        }
        assert(q1[i - 1] == q[i]);
        lemma_eventual_delivery(q[0]->delivers, q1, i - 1);
    }
}

/// Dispatch order: for a run of ordinary messages followed by a termination
/// request, every message is dispatched, in arrival order, before the wait
/// resolves to cancellation.
pub proof fn lemma_dispatch_order<T>(chan: Option<T>, q: Seq<QueueEvent<T>>)
    requires
        chan is None,
        q.len() > 0,
        forall|j: int| 0 <= j < q.len() - 1 ==> plain_message(#[trigger] q[j]),
        q[q.len() - 1] is Quit,
    ensures
        pump_live(chan, q),
        pump_outcome(chan, q) == Err::<T, Error>(Error::TaskCanceled),
        pump_cycles(chan, q) == q.len(),
        pump_dispatches(chan, q) == Seq::new((q.len() - 1) as nat, |j: int| q[j]->msg),
    decreases q.len(),
{
    if q.len() == 1 {
        assert(pump_dispatches(chan, q) =~= Seq::new(0, |j: int| q[j]->msg));
    } else {
        let q1 = q.skip(1);
        assert(plain_message(q[0]));
        assert forall|j: int| 0 <= j < q1.len() - 1 implies plain_message(#[trigger] q1[j]) by {
            assert(plain_message(q[j + 1]));
        }
        assert(q1[q1.len() - 1] == q[q.len() - 1]);
        lemma_dispatch_order(q[0]->delivers, q1);
        assert(pump_dispatches(chan, q) =~= Seq::new(
            (q.len() - 1) as nat,
            |j: int| q[j]->msg,
        ));
    }
}

} // verus!
