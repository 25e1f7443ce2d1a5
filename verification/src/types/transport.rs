//! The transport between the proxy and a plugin.
use vstd::prelude::*;

verus! {

/// Trace metadata for distributed tracing
#[derive(Debug, Clone)]
pub struct TraceMeta {
    pub request_id: Option<String>,
    pub trace_id: Option<String>,
    pub span_id: Option<String>,
}

impl TraceMeta {
    pub fn empty() -> (r: TraceMeta)
        ensures
            r.request_id.is_none() && r.trace_id.is_none() && r.span_id.is_none(),
    {
        TraceMeta { request_id: None, trace_id: None, span_id: None }
    }
}

/// Event sent to a plugin (from the proxy to the plugin)
#[derive(Debug, Clone)]
pub struct TransportEvent {
    pub phase: u8,
    pub method: u32,
    pub data: Vec<u8>,
}

/// Invoke received from a plugin (from the plugin to the proxy)
#[derive(Debug, Clone)]
pub struct TransportInvoke {
    pub method: u32,
    pub data: Vec<u8>,
    pub request_id: Option<String>,
}

impl TransportInvoke {
    /// The request id, if the invoke carries one.
    pub fn request_id(&self) -> (r: Option<&str>)
        ensures
            match r {
                Some(s) => self.request_id.is_some() && s@ == self.request_id.unwrap()@,
                None => self.request_id.is_none(),
            },
    {
        match &self.request_id {
            Some(s) => Some(s.as_str()),
            None => None,
        }
    }
}

/// Error of a transport operation.
#[derive(Debug, Clone)]
pub struct TransportError {
    pub message: String,
}

/// What one receive returned.
pub type ReceiveResult = Result<Option<TransportInvoke>, TransportError>;

/// Abstract transport for plugin communication
pub trait PluginTransport {
    /// The calls of `send_event` so far, in order: the event handed over and what
    /// the call returned. An implementation keeps this record (a ghost field)
    /// and overrides this function; the default records nothing.
    open spec fn sends(&self) -> Seq<(TransportEvent, Result<(), TransportError>)> {
        Seq::empty()
    }

    /// The calls of `try_recv_invoke` so far, in order: the deadline handed over
    /// and what the call returned. Kept and overridden as `sends` is.
    open spec fn receives(&self) -> Seq<(u64, ReceiveResult)> {
        Seq::empty()
    }

    /// Send an event to the plugin
    fn send_event(&mut self, ev: TransportEvent) -> (r: Result<(), TransportError>)
        ensures
            final(self).sends() == old(self).sends().push((ev, r)),
            final(self).receives() == old(self).receives(),
    ;

    /// Receive an invoke from the plugin, waiting at most until `deadline_ms`
    /// (milliseconds since the Unix epoch). `None` when the deadline passes first.
    fn try_recv_invoke(&mut self, deadline_ms: u64) -> (r: ReceiveResult)
        ensures
            final(self).receives() == old(self).receives().push((deadline_ms, r)),
            final(self).sends() == old(self).sends(),
    ;

    /// Trace metadata
    fn trace_meta(&self) -> &TraceMeta;
}

} // verus!
