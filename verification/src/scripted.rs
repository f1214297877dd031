//! A deterministic, in-memory message pump.
//!
//! [`ScriptedPump`] plays back a fixed script of queue events and keeps a
//! single-value channel slot beside it. It implements [`MessagePump`]
//! faithfully — the capability's contracts are verified against this type —
//! and records every dispatched message, so a wait over it can be driven and
//! inspected without any native queue.

use vstd::prelude::*;

use crate::pump::{MessagePump, Msg, QueueEvent, Retrieval};

verus! {

/// A message pump whose queue yields a pre-written script of events.
pub struct ScriptedPump<T> {
    /// The channel's single value slot.
    pub slot: Option<T>,
    /// The events the queue has still to yield, front first.
    pub script: Vec<QueueEvent<T>>,
    /// Every message dispatched so far, in dispatch order.
    pub log: Vec<Msg>,
}

impl<T> ScriptedPump<T> {
    /// A pump whose channel starts holding `initial` and whose queue will
    /// yield the events of `script`, in order.
    pub fn new(initial: Option<T>, script: Vec<QueueEvent<T>>) -> (pump: ScriptedPump<T>)
        ensures
            pump.channel() == initial,
            pump.queue() == script@,
            pump.dispatched() == Seq::<Msg>::empty(),
    {
        ScriptedPump { slot: initial, script, log: Vec::new() }
    }

    /// The messages dispatched so far, in dispatch order.
    pub fn dispatched_log(&self) -> (log: &Vec<Msg>)
        ensures
            log@ == self.dispatched(),
    {
        &self.log
    }

    /// How many scripted events the queue still has in store.
    pub fn remaining_events(&self) -> (n: usize)
        ensures
            n == self.queue().len(),
    {
        self.script.len()
    }
}

impl<T> MessagePump<T> for ScriptedPump<T> {
    open spec fn channel(&self) -> Option<T> {
        self.slot
    }

    open spec fn queue(&self) -> Seq<QueueEvent<T>> {
        self.script@
    }

    open spec fn dispatched(&self) -> Seq<Msg> {
        self.log@
    }

    fn try_recv(&mut self) -> (r: Option<T>) {
        self.slot.take()
    }

    fn get_message(&mut self) -> (r: Retrieval) {
        let event = self.script.remove(0);
        proof {
            assert(old(self).script@.remove(0) =~= old(self).script@.skip(1));
        }
        match event {
            QueueEvent::Fatal(code) => Retrieval::Fatal(code),
            QueueEvent::Quit => Retrieval::Quit,
            QueueEvent::Message { msg, delivers } => {
                if self.slot.is_none() {
                    self.slot = delivers;
                }
                Retrieval::Message(msg)
            },
        }
    }

    fn translate_message(&mut self, _msg: &Msg) {
    }

    fn dispatch_message(&mut self, msg: &Msg) {
        self.log.push(*msg);
    }
}

} // verus!
