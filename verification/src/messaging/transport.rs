//! Messaging-based transport: events are buffered until the session flushes them.
use vstd::prelude::*;
use crate::types::transport::{PluginTransport, ReceiveResult, TraceMeta, TransportError, TransportEvent, TransportInvoke};

verus! {

/// Messaging-based transport implementation (NATS)
pub struct MessagingTransport {
    /// Buffer for outbound events (to be flushed to the reply)
    outbox: Vec<TransportEvent>,
    trace: TraceMeta,
    /// Every send so far and what it returned.
    sent_log: Ghost<Seq<(TransportEvent, Result<(), TransportError>)>>,
    /// Every receive so far: its deadline and what it returned.
    received_log: Ghost<Seq<(u64, ReceiveResult)>>,
}

impl MessagingTransport {
    pub closed spec fn pending(&self) -> Seq<TransportEvent> {
        self.outbox@
    }

    pub closed spec fn trace_spec(&self) -> TraceMeta {
        self.trace
    }

    pub fn new(trace: TraceMeta) -> (r: MessagingTransport)
        ensures
            r.pending().len() == 0,
            r.trace_spec() == trace,
            r.sends().len() == 0,
            r.receives().len() == 0,
    {
        MessagingTransport { outbox: Vec::new(), trace, sent_log: Ghost(Seq::empty()), received_log: Ghost(Seq::empty()) }
    }

    /// Takes the buffered events, leaving the buffer empty.
    pub fn take_outbox(&mut self) -> (r: Vec<TransportEvent>)
        ensures
            r@ == old(self).pending(),
            final(self).pending().len() == 0,
            final(self).trace_spec() == old(self).trace_spec(),
            final(self).sends() == old(self).sends(),
            final(self).receives() == old(self).receives(),
    {
        let mut taken: Vec<TransportEvent> = Vec::new();
        std::mem::swap(&mut taken, &mut self.outbox);
        taken
    }
}

impl PluginTransport for MessagingTransport {
    closed spec fn sends(&self) -> Seq<(TransportEvent, Result<(), TransportError>)> {
        self.sent_log@
    }

    closed spec fn receives(&self) -> Seq<(u64, ReceiveResult)> {
        self.received_log@
    }

    /// Buffers the event; the session flushes it with the reply.
    fn send_event(&mut self, ev: TransportEvent) -> (r: Result<(), TransportError>)
        ensures
            r.is_ok(),
            final(self).pending() == old(self).pending().push(ev),
            final(self).trace_spec() == old(self).trace_spec(),
    {
        let ghost g = ev;
        self.outbox.push(ev);
        let r: Result<(), TransportError> = Ok(());
        proof {
            self.sent_log@ = self.sent_log@.push((g, r));
        }
        r
    }

    /// Nothing is received over this transport yet.
    fn try_recv_invoke(&mut self, deadline_ms: u64) -> (r: Result<Option<TransportInvoke>, TransportError>)
        ensures
            r == Ok::<Option<TransportInvoke>, TransportError>(None),
            final(self).pending() == old(self).pending(),
            final(self).trace_spec() == old(self).trace_spec(),
    {
        let r: Result<Option<TransportInvoke>, TransportError> = Ok(None);
        proof {
            self.received_log@ = self.received_log@.push((deadline_ms, r));
        }
        r
    }

    fn trace_meta(&self) -> (r: &TraceMeta)
        ensures
            *r == self.trace_spec(),
    {
        &self.trace
    }
}

} // verus!
