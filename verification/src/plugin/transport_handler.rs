//! A plugin session over a transport, handing each request id out once.
use vstd::prelude::*;
use crate::plugin::messaging::now_unix_millis;
use crate::plugin::types::PluginResult;
use crate::types::eval::text_eq;
use crate::types::transport::{PluginTransport, ReceiveResult, TransportError, TransportEvent, TransportInvoke};

verus! {

/// The request ids held by a list.
pub open spec fn id_set(ids: Seq<String>) -> Set<Seq<char>> {
    Set::new(|s: Seq<char>| exists|i: int| 0 <= i < ids.len() && ids[i]@ == s)
}

/// The request id of an invoke, if it has one.
pub open spec fn invoke_id(inv: TransportInvoke) -> Option<Seq<char>> {
    match inv.request_id {
        Some(s) => Some(s@),
        None => None,
    }
}

/// A receive that gave an invoke whose request id is in `seen`: it is skipped.
pub open spec fn is_repeat(res: ReceiveResult, seen: Set<Seq<char>>) -> bool {
    res matches Ok(Some(inv)) && (invoke_id(inv) matches Some(id) && seen.contains(id))
}

/// The event that starts `phase`: method 0, no data.
pub open spec fn is_phase_start(ev: TransportEvent, phase: u8) -> bool {
    ev.phase == phase && ev.method == 0 && ev.data@.len() == 0
}

/// A deadline `timeout_ms` after some moment (saturating at the largest time).
pub open spec fn deadline_after(d: u64, timeout_ms: u64) -> bool {
    exists|start: u64| d == #[trigger] start.saturating_add(timeout_ms)
}

/// The receives `rx1` made after `rx0`, by one run of the receive loop that
/// returned `r`: every one with the same deadline, `timeout_ms` after the start;
/// all but the last repeats of a seen request id; the last gives the result (an
/// error as it came, `Timeout` for nothing received, else the invoke).
pub open spec fn loop_receives(rx0: Seq<(u64, ReceiveResult)>, rx1: Seq<(u64, ReceiveResult)>,
    seen: Set<Seq<char>>, timeout_ms: u64, r: Result<PluginLoopResult, TransportError>) -> bool
{
    &&& rx0.len() < rx1.len()
    &&& rx1.subrange(0, rx0.len() as int) == rx0
    &&& deadline_after(rx1.last().0, timeout_ms)
    &&& forall|k: int| rx0.len() <= k < rx1.len() ==> (#[trigger] rx1[k]).0 == rx1.last().0
    &&& forall|k: int| rx0.len() <= k < rx1.len() - 1 ==> is_repeat((#[trigger] rx1[k]).1, seen)
    &&& match r {
            Err(e) => rx1.last().1 == Err::<Option<TransportInvoke>, TransportError>(e),
            Ok(PluginLoopResult::Invoke(inv)) => rx1.last().1 == Ok::<Option<TransportInvoke>, TransportError>(Some(inv))
                && !is_repeat(rx1.last().1, seen),
            Ok(PluginLoopResult::Timeout) => rx1.last().1 == Ok::<Option<TransportInvoke>, TransportError>(None)
                || (is_repeat(rx1.last().1, seen) && rx1.len() - rx0.len() == u64::MAX),
        }
}

/// What the receive loop ended with.
#[derive(Debug)]
pub enum PluginLoopResult {
    Invoke(TransportInvoke),
    Timeout,
}

/// A session over a plugin transport that drops invokes whose request id it has seen.
pub struct TransportSessionHandler<T: PluginTransport> {
    transport: T,
    seen_request_ids: Vec<String>,
}

/// The event that starts a phase: method 0, no data.
pub fn phase_start_event(phase: u8) -> (r: TransportEvent)
    ensures
        r.phase == phase,
        r.method == 0,
        r.data@.len() == 0,
{
    TransportEvent { phase, method: 0, data: Vec::new() }
}

impl<T: PluginTransport> TransportSessionHandler<T> {
    /// The request ids seen so far.
    pub closed spec fn seen(&self) -> Set<Seq<char>> {
        id_set(self.seen_request_ids@)
    }

    pub closed spec fn transport_spec(&self) -> T {
        self.transport
    }

    /// A session over `transport` that has seen no request.
    pub fn new(transport: T) -> (r: Self)
        ensures
            r.seen() == Set::<Seq<char>>::empty(),
            r.transport_spec() == transport,
    {
        let r = TransportSessionHandler { transport, seen_request_ids: Vec::new() };
        assert(id_set(r.seen_request_ids@) =~= Set::<Seq<char>>::empty());
        r
    }

    fn has_seen(&self, id: &str) -> (r: bool)
        ensures
            r == self.seen().contains(id@),
    {
        let mut i: usize = 0;
        while i < self.seen_request_ids.len()
            invariant
                i <= self.seen_request_ids@.len(),
                forall|k: int| 0 <= k < i ==> self.seen_request_ids@[k]@ != id@,
            decreases self.seen_request_ids.len() - i,
        {
            if text_eq(self.seen_request_ids[i].as_str(), id) {
                assert(self.seen_request_ids@[i as int]@ == id@);
                return true;
            }
            i = i + 1;
        }
        false
    }

    /// Lets an invoke through unless its request id was seen before; a let-through
    /// id is remembered. Invokes without an id always go through.
    pub fn accept_invoke(&mut self, inv: TransportInvoke) -> (r: Option<TransportInvoke>)
        ensures
            match invoke_id(inv) {
                None => r == Some(inv) && final(self).seen() == old(self).seen(),
                Some(id) => if old(self).seen().contains(id) {
                    r.is_none() && final(self).seen() == old(self).seen()
                } else {
                    r == Some(inv) && final(self).seen() == old(self).seen().insert(id)
                },
            },
            final(self).transport_spec() == old(self).transport_spec(),
    {
        let fresh = match inv.request_id() {
            Some(id) => {
                if self.has_seen(id) {
                    false
                } else {
                    let ghost before = self.seen_request_ids@;
                    self.seen_request_ids.push(String::from_str(id));
                    proof {
                        assert(id_set(self.seen_request_ids@) =~= id_set(before).insert(id@)) by {
                            assert(self.seen_request_ids@[before.len() as int]@ == id@);
                            assert forall|s: Seq<char>| id_set(self.seen_request_ids@).contains(s) implies id_set(before).insert(id@).contains(s) by {
                                let i = choose|i: int| 0 <= i < self.seen_request_ids@.len() && self.seen_request_ids@[i]@ == s;
                                if i < before.len() {
                                    assert(before[i]@ == s);
                                }
                            }
                            assert forall|s: Seq<char>| id_set(before).contains(s) implies id_set(self.seen_request_ids@).contains(s) by {
                                let i = choose|i: int| 0 <= i < before.len() && before[i]@ == s;
                                assert(self.seen_request_ids@[i]@ == s);
                            }
                        }
                    }
                    true
                }
            },
            None => true,
        };
        if fresh {
            Some(inv)
        } else {
            None
        }
    }

    /// Sends the event that starts `phase` (method 0, no data): one call of the
    /// transport's `send_event`, whose result is returned.
    pub fn start_phase(&mut self, phase: u8) -> (r: Result<(), TransportError>)
        ensures
            final(self).seen() == old(self).seen(),
            final(self).transport_spec().sends().len() == old(self).transport_spec().sends().len() + 1,
            final(self).transport_spec().sends().drop_last() == old(self).transport_spec().sends(),
            is_phase_start(final(self).transport_spec().sends().last().0, phase),
            final(self).transport_spec().sends().last().1 == r,
            final(self).transport_spec().receives() == old(self).transport_spec().receives(),
    {
        let ev = phase_start_event(phase);
        let ghost g = ev;
        let r = self.transport.send_event(ev);
        assert(self.transport.sends().drop_last() =~= old(self).transport_spec().sends());
        assert(self.transport.sends().last() == (g, r));
        r
    }

    /// Waits, at most `timeout_ms`, for an invoke whose request id has not been
    /// seen; invokes already seen are skipped. `Timeout` when the transport
    /// reports the deadline passed (or, in principle, after `u64::MAX` skips); an
    /// error of the transport is returned as it came. Every receive is given the
    /// same deadline, `timeout_ms` after the start.
    pub fn process_loop(&mut self, timeout_ms: u64) -> (r: Result<PluginLoopResult, TransportError>)
        ensures
            match r {
                Ok(PluginLoopResult::Invoke(inv)) => match invoke_id(inv) {
                    None => final(self).seen() == old(self).seen(),
                    Some(id) => !old(self).seen().contains(id) && final(self).seen() == old(self).seen().insert(id),
                },
                _ => final(self).seen() == old(self).seen(),
            },
            loop_receives(old(self).transport_spec().receives(), final(self).transport_spec().receives(),
                old(self).seen(), timeout_ms, r),
            final(self).transport_spec().sends() == old(self).transport_spec().sends(),
    {
        let start = now_unix_millis();
        let deadline = start.saturating_add(timeout_ms);
        assert(deadline == start.saturating_add(timeout_ms));
        assert(deadline_after(deadline, timeout_ms));
        let ghost rx0 = self.transport.receives();
        let ghost sends0 = self.transport.sends();
        let ghost seen0 = self.seen();
        let mut rounds: u64 = 0;
        while rounds < u64::MAX
            invariant
                self.seen() == seen0,
                seen0 == old(self).seen(),
                rx0 == old(self).transport_spec().receives(),
                sends0 == old(self).transport_spec().sends(),
                self.transport.sends() == sends0,
                deadline_after(deadline, timeout_ms),
                self.transport.receives().len() == rx0.len() + rounds,
                self.transport.receives().subrange(0, rx0.len() as int) == rx0,
                forall|k: int| rx0.len() <= k < self.transport.receives().len() ==> (#[trigger] self.transport.receives()[k]).0 == deadline,
                forall|k: int| rx0.len() <= k < self.transport.receives().len() ==> is_repeat((#[trigger] self.transport.receives()[k]).1, seen0),
            decreases u64::MAX - rounds,
        {
            let ghost rx = self.transport.receives();
            let maybe = self.transport.try_recv_invoke(deadline);
            assert(self.transport.receives().subrange(0, rx0.len() as int) =~= rx0) by {
                assert(self.transport.receives().subrange(0, rx0.len() as int) =~= rx.subrange(0, rx0.len() as int));
            }
            assert(self.transport.receives().last() == (deadline, maybe));
            assert forall|k: int| rx0.len() <= k < self.transport.receives().len() - 1 implies
                is_repeat((#[trigger] self.transport.receives()[k]).1, seen0) && self.transport.receives()[k].0 == deadline by {
                assert(self.transport.receives()[k] == rx[k]);
            }
            match maybe {
                Err(e) => {
                    return Err(e);
                },
                Ok(None) => {
                    return Ok(PluginLoopResult::Timeout);
                },
                Ok(Some(inv)) => {
                    let ghost g = inv;
                    match self.accept_invoke(inv) {
                        Some(inv) => {
                            return Ok(PluginLoopResult::Invoke(inv));
                        },
                        None => {
                            assert(is_repeat(self.transport.receives().last().1, seen0));
                        },
                    }
                },
            }
            rounds = rounds + 1;
        }
        Ok(PluginLoopResult::Timeout)
    }

    /// Sends an event to the plugin: one call of the transport's `send_event`,
    /// whose result is returned.
    pub fn send_event(&mut self, ev: TransportEvent) -> (r: Result<(), TransportError>)
        ensures
            final(self).seen() == old(self).seen(),
            final(self).transport_spec().sends() == old(self).transport_spec().sends().push((ev, r)),
            final(self).transport_spec().receives() == old(self).transport_spec().receives(),
    {
        self.transport.send_event(ev)
    }

    /// The transport of the session.
    pub fn transport(&self) -> (r: &T)
        ensures
            *r == self.transport_spec(),
    {
        &self.transport
    }
}

/// What a session does next with what the receive loop gave.
pub enum SessionStep {
    /// The phase ends with this result.
    Stop(PluginResult),
    /// Carry out this invoke of the plugin.
    Handle(TransportInvoke),
}

/// The session's next step: an invoke is carried out; when the plugin sent
/// nothing before the deadline, the phase ends with the default result, which
/// ends neither the exchange nor the stream. (After an invoke, the phase ends
/// once its action has a result, see `SessionAction::completion`.)
pub fn session_step(received: PluginLoopResult) -> (r: SessionStep)
    ensures
        match received {
            PluginLoopResult::Invoke(inv) => r == SessionStep::Handle(inv),
            PluginLoopResult::Timeout => r matches SessionStep::Stop(p) && !p.http_end && !p.stream_end,
        },
{
    match received {
        PluginLoopResult::Invoke(inv) => SessionStep::Handle(inv),
        PluginLoopResult::Timeout => SessionStep::Stop(PluginResult::proceed()),
    }
}

} // verus!
