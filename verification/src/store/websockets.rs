//! WebSocket connections, their rooms, and the delivery of room messages.
use vstd::prelude::*;
use vstd::string::*;
use crate::error::NylonError;
use crate::text_map::TextMap;
use crate::tls::certificate::now_timestamp;
use crate::types::eval::{new_uuid_v4_string, is_uuid_text, text_eq};
use crate::types::websocket::{
    AdapterType, RedisAdapterConfig, WebSocketAdapterConfig, WebSocketConnection, WebSocketEvent,
    WebSocketMessage, WebSocketRoom,
};

verus! {

/// The GUID that RFC 6455 appends to a client key to compute `Sec-WebSocket-Accept`.
pub const WEBSOCKET_GUID: &'static str = "258EAFA5-E914-47DA-95CA-C5AB0DC85B11";

/// A map that holds `k` holds something.
proof fn lemma_holds_some<V>(m: Map<Seq<char>, V>, k: Seq<char>)
    requires
        m.dom().finite(),
        m.contains_key(k),
    ensures
        m.len() > 0,
{
    assert(m.dom().remove(k).len() + 1 == m.dom().len());
}

/// Entry `k` of `m` holds `x`.
pub open spec fn holds(m: Map<Seq<char>, TextMap<()>>, k: Seq<char>, x: Seq<char>) -> bool {
    m.contains_key(k) && m[k]@.contains_key(x)
}

/// No entry of `m` is empty.
pub open spec fn none_empty(m: Map<Seq<char>, TextMap<()>>) -> bool {
    forall|k: Seq<char>| #[trigger] m.contains_key(k) ==> m[k]@.dom().finite() && m[k]@.len() > 0
}

/// The members of each room and the rooms of each connection say the same.
pub open spec fn indexes_agree(rooms: Map<Seq<char>, TextMap<()>>, joined: Map<Seq<char>, TextMap<()>>) -> bool {
    &&& none_empty(rooms)
    &&& none_empty(joined)
    &&& forall|c: Seq<char>, r: Seq<char>|
            #![trigger holds(rooms, r, c)]
            #![trigger holds(joined, c, r)]
            holds(rooms, r, c) <==> holds(joined, c, r)
}

/// A finite map without keys holds nothing.
proof fn lemma_holds_none<V>(m: Map<Seq<char>, V>, k: Seq<char>)
    requires
        m.dom().finite(),
        m.len() == 0,
    ensures
        !m.contains_key(k),
{
    if m.contains_key(k) {
        lemma_holds_some(m, k);
    }
}

/// The connection an event is sent to (nothing for other events).
pub open spec fn event_target(e: WebSocketEvent) -> Seq<char> {
    match e {
        WebSocketEvent::SendToConnection { connection_id, .. } => connection_id@,
        _ => Seq::empty(),
    }
}

/// The connections the events appended to `before` (giving `after`) are sent to, in order.
pub open spec fn appended_targets(before: Seq<WebSocketEvent>, after: Seq<WebSocketEvent>) -> Seq<Seq<char>> {
    after.subrange(before.len() as int, after.len() as int).map_values(|e: WebSocketEvent| event_target(e))
}

/// The members of room `r` of `a`, but `exclude`.
pub open spec fn broadcast_targets(a: MemoryAdapter, r: Seq<char>, exclude: Option<&str>) -> Set<Seq<char>> {
    Set::new(|c: Seq<char>| a.in_room(c, r) && (exclude is Some ==> c != exclude.unwrap()@))
}

/// Events appended to `start`, each a message to a distinct member of `r` (but
/// `exclude`), one for every such member: their targets are those members, each once.
proof fn lemma_broadcast_targets(a: MemoryAdapter, r: Seq<char>, exclude: Option<&str>,
    start: Seq<WebSocketEvent>, events: Seq<WebSocketEvent>)
    requires
        events.len() >= start.len(),
        forall|j: int| start.len() <= j < events.len() ==>
            (#[trigger] events[j] matches WebSocketEvent::SendToConnection { connection_id, .. }
                && a.in_room(connection_id@, r)
                && (exclude is Some ==> connection_id@ != exclude.unwrap()@)),
        forall|c: Seq<char>| a.in_room(c, r) && (exclude is Some ==> c != exclude.unwrap()@)
            ==> exists|j: int| start.len() <= j < events.len()
                && (#[trigger] events[j] matches WebSocketEvent::SendToConnection { connection_id, .. }
                    && connection_id@ == c),
        forall|j1: int, j2: int| start.len() <= j1 < j2 < events.len() ==>
            event_target(#[trigger] events[j1]) != event_target(#[trigger] events[j2]),
    ensures
        appended_targets(start, events).no_duplicates(),
        appended_targets(start, events).to_set() == broadcast_targets(a, r, exclude),
        events.len() - start.len() == broadcast_targets(a, r, exclude).len(),
{
    let t = appended_targets(start, events);
    let e = broadcast_targets(a, r, exclude);
    assert forall|x: int, y: int| 0 <= x < t.len() && 0 <= y < t.len() && x != y implies t[x] != t[y] by {
        if x < y {
            assert(event_target(events[start.len() + x]) != event_target(events[start.len() + y]));
        } else {
            assert(event_target(events[start.len() + y]) != event_target(events[start.len() + x]));
        }
    }
    assert forall|c: Seq<char>| t.to_set().contains(c) <==> e.contains(c) by {
        if t.to_set().contains(c) {
            let x = choose|x: int| 0 <= x < t.len() && t[x] == c;
            assert(events[start.len() + x] matches WebSocketEvent::SendToConnection { connection_id, .. }
                && a.in_room(connection_id@, r)
                && (exclude is Some ==> connection_id@ != exclude.unwrap()@));
        }
        if e.contains(c) {
            let j = choose|j: int| start.len() <= j < events.len()
                && (#[trigger] events[j] matches WebSocketEvent::SendToConnection { connection_id, .. }
                    && connection_id@ == c);
            assert(t[j - start.len()] == c);
            assert(t.contains(c));
        }
    }
    assert(t.to_set() =~= e);
    t.unique_seq_to_set();
}

/// Connections and rooms of this node, kept in memory. Room messages become
/// events for the node's dispatcher, which `take_events` hands out.
pub struct MemoryAdapter {
    connections: TextMap<WebSocketConnection>,
    rooms: TextMap<TextMap<()>>,
    connection_rooms: TextMap<TextMap<()>>,
    node_id: String,
    events: Vec<WebSocketEvent>,
}

impl MemoryAdapter {
    /// Connection `c` is a member of room `r`, as the rooms see it.
    pub closed spec fn in_room(&self, c: Seq<char>, r: Seq<char>) -> bool {
        holds(self.rooms@, r, c)
    }

    /// Connection `c` is in room `r`, as the connection sees it.
    pub closed spec fn joined(&self, c: Seq<char>, r: Seq<char>) -> bool {
        holds(self.connection_rooms@, c, r)
    }

    /// The registered connections by id.
    pub closed spec fn connections_view(&self) -> Map<Seq<char>, WebSocketConnection> {
        self.connections@
    }

    /// The rooms that hold a connection.
    pub closed spec fn room_names(&self) -> Set<Seq<char>> {
        self.rooms@.dom()
    }

    pub closed spec fn node(&self) -> Seq<char> {
        self.node_id@
    }

    /// Events not yet handed to the dispatcher.
    pub closed spec fn pending(&self) -> Seq<WebSocketEvent> {
        self.events@
    }

    /// The two indexes agree, and no room or connection entry is left empty.
    pub closed spec fn wf(&self) -> bool {
        indexes_agree(self.rooms@, self.connection_rooms@)
    }

    /// An adapter with no connection and no room, under a fresh random node id.
    pub fn new() -> (r: MemoryAdapter)
        ensures
            r.wf(),
            r.connections_view() == Map::<Seq<char>, WebSocketConnection>::empty(),
            r.room_names() == Set::<Seq<char>>::empty(),
            forall|c: Seq<char>, rm: Seq<char>| !r.in_room(c, rm),
            is_uuid_text(r.node(), '4'),
            r.pending().len() == 0,
    {
        MemoryAdapter {
            connections: TextMap::new(),
            rooms: TextMap::new(),
            connection_rooms: TextMap::new(),
            node_id: new_uuid_v4_string(),
            events: Vec::new(),
        }
    }

    /// Registers a connection under its id, replacing one of the same id.
    pub fn add_connection(&mut self, connection: WebSocketConnection)
        requires
            old(self).wf(),
        ensures
            final(self).wf(),
            final(self).connections_view() == old(self).connections_view().insert(connection.id@, connection),
            forall|c: Seq<char>, r: Seq<char>| final(self).in_room(c, r) == old(self).in_room(c, r),
            final(self).room_names() == old(self).room_names(),
            final(self).node() == old(self).node(),
            final(self).pending() == old(self).pending(),
    {
        let id = connection.id.clone();
        self.connections.insert(id, connection);
    }

    /// Puts connection `c` in room `r`.
    pub fn join_room(&mut self, c: &str, r: &str)
        requires
            old(self).wf(),
        ensures
            final(self).wf(),
            final(self).in_room(c@, r@),
            forall|c2: Seq<char>, r2: Seq<char>| !(c2 == c@ && r2 == r@)
                ==> final(self).in_room(c2, r2) == old(self).in_room(c2, r2),
            final(self).room_names() == old(self).room_names().insert(r@),
            final(self).connections_view() == old(self).connections_view(),
            final(self).node() == old(self).node(),
            final(self).pending() == old(self).pending(),
    {
        let mut members = match self.rooms.remove(r) {
            Some(m) => m,
            None => TextMap::new(),
        };
        members.insert(String::from_str(c), ());
        let _ = members.len();
        proof {
            lemma_holds_some(members@, c@);
        }
        self.rooms.insert(String::from_str(r), members);
        let mut joined = match self.connection_rooms.remove(c) {
            Some(m) => m,
            None => TextMap::new(),
        };
        joined.insert(String::from_str(r), ());
        let _ = joined.len();
        proof {
            lemma_holds_some(joined@, r@);
        }
        self.connection_rooms.insert(String::from_str(c), joined);
        proof {
            assert(self.rooms@.dom() =~= old(self).rooms@.dom().insert(r@));
            assert forall|c2: Seq<char>, r2: Seq<char>|
                #![trigger holds(self.rooms@, r2, c2)]
                #![trigger holds(self.connection_rooms@, c2, r2)]
                holds(self.rooms@, r2, c2) <==> holds(self.connection_rooms@, c2, r2) by {
                assert(holds(old(self).rooms@, r2, c2) <==> holds(old(self).connection_rooms@, c2, r2));
            }
        }
    }

    /// Takes connection `c` out of room `r`; a room left empty is dropped.
    pub fn leave_room(&mut self, c: &str, r: &str)
        requires
            old(self).wf(),
        ensures
            final(self).wf(),
            !final(self).in_room(c@, r@),
            forall|c2: Seq<char>, r2: Seq<char>| !(c2 == c@ && r2 == r@)
                ==> final(self).in_room(c2, r2) == old(self).in_room(c2, r2),
            final(self).connections_view() == old(self).connections_view(),
            final(self).node() == old(self).node(),
            final(self).pending() == old(self).pending(),
    {
        let ghost rooms0 = self.rooms@;
        let ghost joined0 = self.connection_rooms@;
        if let Some(mut members) = self.rooms.remove(r) {
            members.remove(c);
            if members.len() > 0 {
                self.rooms.insert(String::from_str(r), members);
            } else {
                proof {
                    assert forall|x: Seq<char>| x != c@ implies !rooms0[r@]@.contains_key(x) by {
                        lemma_holds_none(members@, x);
                    }
                }
            }
        }
        if let Some(mut joined) = self.connection_rooms.remove(c) {
            joined.remove(r);
            if joined.len() > 0 {
                self.connection_rooms.insert(String::from_str(c), joined);
            } else {
                proof {
                    assert forall|x: Seq<char>| x != r@ implies !joined0[c@]@.contains_key(x) by {
                        lemma_holds_none(joined@, x);
                    }
                }
            }
        }
        proof {
            assert forall|c2: Seq<char>, r2: Seq<char>| !(c2 == c@ && r2 == r@)
                implies holds(self.rooms@, r2, c2) == holds(rooms0, r2, c2) by {
                if r2 == r@ && self.rooms@.contains_key(r2) {
                    assert(self.rooms@[r2]@ == rooms0[r2]@.remove(c@));
                }
            }
            assert forall|c2: Seq<char>, r2: Seq<char>| !(c2 == c@ && r2 == r@)
                implies holds(self.connection_rooms@, c2, r2) == holds(joined0, c2, r2) by {
                if c2 == c@ && self.connection_rooms@.contains_key(c2) {
                    assert(self.connection_rooms@[c2]@ == joined0[c2]@.remove(r@));
                }
            }
            assert(!holds(self.rooms@, r@, c@));
            assert(!holds(self.connection_rooms@, c@, r@));
            assert forall|c2: Seq<char>, r2: Seq<char>|
                #![trigger holds(self.rooms@, r2, c2)]
                #![trigger holds(self.connection_rooms@, c2, r2)]
                holds(self.rooms@, r2, c2) <==> holds(self.connection_rooms@, c2, r2) by {
                if !(c2 == c@ && r2 == r@) {
                    assert(holds(rooms0, r2, c2) <==> holds(joined0, c2, r2));
                }
            }
        }
    }

    /// Removes connection `c` and takes it out of every room it was in; rooms
    /// left empty are dropped.
    pub fn remove_connection(&mut self, c: &str)
        requires
            old(self).wf(),
        ensures
            final(self).wf(),
            final(self).connections_view() == old(self).connections_view().remove(c@),
            forall|r: Seq<char>| !final(self).in_room(c@, r),
            forall|c2: Seq<char>, r: Seq<char>| c2 != c@ ==> final(self).in_room(c2, r) == old(self).in_room(c2, r),
            forall|r: Seq<char>| #[trigger] final(self).room_names().contains(r)
                <==> exists|c2: Seq<char>| c2 != c@ && old(self).in_room(c2, r),
            final(self).node() == old(self).node(),
            final(self).pending() == old(self).pending(),
    {
        let ghost rooms0 = self.rooms@;
        let ghost joined0 = self.connection_rooms@;
        self.connections.remove(c);
        if let Some(joined) = self.connection_rooms.remove(c) {
            let names = joined.keys();
            let mut i: usize = 0;
            while i < names.len()
                invariant
                    i <= names@.len(),
                    forall|x: int| 0 <= x < names@.len() ==> joined@.contains_key(#[trigger] names@[x]@),
                    forall|k: Seq<char>| joined@.contains_key(k) ==> exists|x: int| 0 <= x < names@.len() && names@[x]@ == k,
                    self.connection_rooms@ == joined0.remove(c@),
                    self.connections@ == old(self).connections@.remove(c@),
                    self.node_id == old(self).node_id,
                    self.events == old(self).events,
                    indexes_agree(rooms0, joined0),
                    joined0.contains_key(c@),
                    joined@ == joined0[c@]@,
                    none_empty(self.rooms@),
                    forall|c2: Seq<char>, r: Seq<char>| #![trigger holds(self.rooms@, r, c2)]
                        c2 != c@ ==> (holds(self.rooms@, r, c2) == holds(rooms0, r, c2)),
                    forall|r: Seq<char>| #![trigger holds(self.rooms@, r, c@)]
                        holds(self.rooms@, r, c@) ==> holds(rooms0, r, c@)
                            && !(exists|x: int| 0 <= x < i && names@[x]@ == r),
                decreases names.len() - i,
            {
                let ghost pre = self.rooms@;
                let ghost n = names@[i as int]@;
                if let Some(mut members) = self.rooms.remove(names[i].as_str()) {
                    members.remove(c);
                    if members.len() > 0 {
                        self.rooms.insert(names[i].clone(), members);
                    } else {
                        proof {
                            assert forall|x: Seq<char>| x != c@ implies !pre[n]@.contains_key(x) by {
                                lemma_holds_none(members@, x);
                            }
                        }
                    }
                }
                proof {
                    assert forall|c2: Seq<char>, r: Seq<char>| #![trigger holds(self.rooms@, r, c2)]
                        c2 != c@ implies (holds(self.rooms@, r, c2) == holds(rooms0, r, c2)) by {
                        assert(holds(pre, r, c2) == holds(rooms0, r, c2));
                        if r == n && self.rooms@.contains_key(r) {
                            assert(self.rooms@[r]@ == pre[r]@.remove(c@));
                        }
                    }
                    assert forall|r: Seq<char>| #![trigger holds(self.rooms@, r, c@)]
                        holds(self.rooms@, r, c@) implies holds(rooms0, r, c@)
                            && !(exists|x: int| 0 <= x < i + 1 && names@[x]@ == r) by {
                        if r == n {
                            if self.rooms@.contains_key(r) {
                                assert(self.rooms@[r]@ == pre[r]@.remove(c@));
                            }
                        }
                        assert(holds(pre, r, c@));
                    }
                }
                i = i + 1;
            }
            proof {
                assert forall|r: Seq<char>| !#[trigger] holds(self.rooms@, r, c@) by {
                    if holds(self.rooms@, r, c@) {
                        assert(holds(rooms0, r, c@));
                        assert(holds(joined0, c@, r));
                        assert(joined@.contains_key(r));
                    }
                }
            }
        } else {
            proof {
                assert forall|r: Seq<char>| !#[trigger] holds(self.rooms@, r, c@) by {
                    assert(!holds(joined0, c@, r));
                }
                assert(self.connection_rooms@ =~= joined0.remove(c@));
            }
        }
        proof {
            assert forall|c2: Seq<char>, r2: Seq<char>|
                #![trigger holds(self.rooms@, r2, c2)]
                #![trigger holds(self.connection_rooms@, c2, r2)]
                holds(self.rooms@, r2, c2) <==> holds(self.connection_rooms@, c2, r2) by {
                if c2 != c@ {
                    assert(holds(rooms0, r2, c2) <==> holds(joined0, c2, r2));
                }
            }
            assert forall|r: Seq<char>| #[trigger] self.room_names().contains(r)
                <==> exists|c2: Seq<char>| c2 != c@ && old(self).in_room(c2, r) by {
                Self::lemma_room_listed(self, r);
                if exists|c2: Seq<char>| c2 != c@ && old(self).in_room(c2, r) {
                    let c2 = choose|c2: Seq<char>| c2 != c@ && old(self).in_room(c2, r);
                    assert(self.in_room(c2, r));
                }
                if self.room_names().contains(r) {
                    let c2 = choose|c2: Seq<char>| self.in_room(c2, r);
                    assert(c2 != c@);
                    assert(old(self).in_room(c2, r));
                }
            }
        }
    }

    /// The two indexes agree: connection `c` is a member of room `r` exactly when
    /// `r` is among the rooms of `c`. Every operation keeps `wf`, so this holds
    /// after any sequence of them, `remove_connection` included.
    pub proof fn lemma_indexes_agree(a: &Self, c: Seq<char>, r: Seq<char>)
        requires
            a.wf(),
        ensures
            a.in_room(c, r) <==> a.joined(c, r),
    {
    }

    /// A room is listed exactly when some connection is in it: a room left
    /// without members is dropped.
    pub proof fn lemma_room_listed(a: &Self, r: Seq<char>)
        requires
            a.wf(),
        ensures
            a.room_names().contains(r) <==> exists|c: Seq<char>| a.in_room(c, r),
    {
        if a.room_names().contains(r) {
            let m = a.rooms@[r]@;
            assert(m.dom().finite() && m.len() > 0);
            if m.dom().len() > 0 {
                let c = m.dom().choose();
                assert(a.in_room(c, r));
            }
        }
    }

    /// The connections in room `r`, each once.
    pub fn get_room_connections(&self, r: &str) -> (result: Vec<String>)
        requires
            self.wf(),
        ensures
            forall|i: int| 0 <= i < result@.len() ==> self.in_room(#[trigger] result@[i]@, r@),
            forall|c: Seq<char>| self.in_room(c, r@) ==> exists|i: int| 0 <= i < result@.len() && result@[i]@ == c,
            forall|a: int, b: int| 0 <= a < b < result@.len() ==> result@[a]@ != result@[b]@,
    {
        match self.rooms.get(r) {
            Some(members) => members.keys(),
            None => Vec::new(),
        }
    }

    /// The rooms that connection `c` is in, each once.
    pub fn get_connection_rooms(&self, c: &str) -> (result: Vec<String>)
        requires
            self.wf(),
        ensures
            forall|i: int| 0 <= i < result@.len() ==> self.in_room(c@, #[trigger] result@[i]@),
            forall|r: Seq<char>| self.in_room(c@, r) ==> exists|i: int| 0 <= i < result@.len() && result@[i]@ == r,
            forall|a: int, b: int| 0 <= a < b < result@.len() ==> result@[a]@ != result@[b]@,
    {
        match self.connection_rooms.get(c) {
            Some(joined) => {
                let names = joined.keys();
                proof {
                    assert forall|i: int| 0 <= i < names@.len() implies self.in_room(c@, #[trigger] names@[i]@) by {
                        assert(self.joined(c@, names@[i]@));
                    }
                    assert forall|r: Seq<char>| self.in_room(c@, r) implies exists|i: int| 0 <= i < names@.len() && names@[i]@ == r by {
                        assert(self.joined(c@, r));
                    }
                }
                names
            },
            None => {
                proof {
                    assert forall|r: Seq<char>| !self.in_room(c@, r) by {
                        assert(!self.joined(c@, r));
                    }
                }
                Vec::new()
            },
        }
    }

    /// Queues, for each connection of room `r` but `exclude`, an event that
    /// sends it `message`.
    pub fn broadcast_to_room(&mut self, r: &str, message: WebSocketMessage, exclude_connection: Option<&str>)
        requires
            old(self).wf(),
        ensures
            final(self).wf(),
            appended_targets(old(self).pending(), final(self).pending()).no_duplicates(),
            appended_targets(old(self).pending(), final(self).pending()).to_set()
                == broadcast_targets(*old(self), r@, exclude_connection),
            final(self).pending().len() - old(self).pending().len()
                == broadcast_targets(*old(self), r@, exclude_connection).len(),
            final(self).pending().len() >= old(self).pending().len(),
            final(self).pending().subrange(0, old(self).pending().len() as int) == old(self).pending(),
            forall|j: int| old(self).pending().len() <= j < final(self).pending().len() ==>
                (#[trigger] final(self).pending()[j] matches WebSocketEvent::SendToConnection { connection_id, message: m, sender_node_id }
                    && old(self).in_room(connection_id@, r@)
                    && (exclude_connection is Some ==> connection_id@ != exclude_connection.unwrap()@)
                    && m@ == message@
                    && sender_node_id@ == old(self).node()),
            forall|c: Seq<char>| old(self).in_room(c, r@) && (exclude_connection is Some ==> c != exclude_connection.unwrap()@)
                ==> exists|j: int| old(self).pending().len() <= j < final(self).pending().len()
                    && (#[trigger] final(self).pending()[j] matches WebSocketEvent::SendToConnection { connection_id, .. }
                        && connection_id@ == c),
            final(self).connections_view() == old(self).connections_view(),
            forall|c: Seq<char>, r2: Seq<char>| final(self).in_room(c, r2) == old(self).in_room(c, r2),
            final(self).node() == old(self).node(),
    {
        let members = self.get_room_connections(r);
        let ghost start = self.events@;
        let mut i: usize = 0;
        while i < members.len()
            invariant
                i <= members@.len(),
                old(self).wf(),
                self.rooms == old(self).rooms,
                self.connection_rooms == old(self).connection_rooms,
                self.connections == old(self).connections,
                self.node_id == old(self).node_id,
                start == old(self).events@,
                forall|x: int| 0 <= x < members@.len() ==> old(self).in_room(#[trigger] members@[x]@, r@),
                self.events@.len() >= start.len(),
                self.events@.subrange(0, start.len() as int) == start,
                forall|j: int| start.len() <= j < self.events@.len() ==>
                    (#[trigger] self.events@[j] matches WebSocketEvent::SendToConnection { connection_id, message: m, sender_node_id }
                        && old(self).in_room(connection_id@, r@)
                        && (exclude_connection is Some ==> connection_id@ != exclude_connection.unwrap()@)
                        && m@ == message@
                        && sender_node_id@ == old(self).node_id@),
                forall|x: int| 0 <= x < i && (exclude_connection is Some ==> members@[x]@ != exclude_connection.unwrap()@)
                    ==> exists|j: int| start.len() <= j < self.events@.len()
                        && (#[trigger] self.events@[j] matches WebSocketEvent::SendToConnection { connection_id, .. }
                            && connection_id@ == members@[x]@),
                forall|a: int, b: int| 0 <= a < b < members@.len() ==> members@[a]@ != members@[b]@,
                forall|j: int| start.len() <= j < self.events@.len() ==>
                    exists|x: int| 0 <= x < i && event_target(#[trigger] self.events@[j]) == members@[x]@,
                forall|j1: int, j2: int| start.len() <= j1 < j2 < self.events@.len() ==>
                    event_target(#[trigger] self.events@[j1]) != event_target(#[trigger] self.events@[j2]),
            decreases members.len() - i,
        {
            let skip = match exclude_connection {
                Some(ex) => text_eq(members[i].as_str(), ex),
                None => false,
            };
            if !skip {
                let ghost before = self.events@;
                self.events.push(WebSocketEvent::SendToConnection {
                    connection_id: members[i].clone(),
                    message: message.clone(),
                    sender_node_id: self.node_id.clone(),
                });
                proof {
                    assert(self.events@.subrange(0, start.len() as int) =~= before.subrange(0, start.len() as int));
                    let j = before.len() as int;
                    assert(event_target(self.events@[j]) == members@[i as int]@);
                    assert forall|j1: int| start.len() <= j1 < self.events@.len() implies
                        exists|x: int| 0 <= x < i + 1 && event_target(#[trigger] self.events@[j1]) == members@[x]@ by {
                        if j1 < j {
                            assert(self.events@[j1] == before[j1]);
                        } else {
                            assert(event_target(self.events@[j1]) == members@[i as int]@);
                        }
                    }
                    assert forall|j1: int, j2: int| start.len() <= j1 < j2 < self.events@.len() implies
                        event_target(#[trigger] self.events@[j1]) != event_target(#[trigger] self.events@[j2]) by {
                        assert(self.events@[j1] == before[j1]);
                        if j2 < j {
                            assert(self.events@[j2] == before[j2]);
                        } else {
                            let x = choose|x: int| 0 <= x < i && event_target(before[j1]) == members@[x]@;
                            assert(members@[x]@ != members@[i as int]@);
                        }
                    }
                    assert(self.events@[j] matches WebSocketEvent::SendToConnection { connection_id, .. }
                        && connection_id@ == members@[i as int]@);
                    assert forall|x: int| 0 <= x < i + 1 && (exclude_connection is Some ==> members@[x]@ != exclude_connection.unwrap()@)
                        implies exists|j2: int| start.len() <= j2 < self.events@.len()
                            && (#[trigger] self.events@[j2] matches WebSocketEvent::SendToConnection { connection_id, .. }
                                && connection_id@ == members@[x]@) by {
                        if x < i {
                            let j2 = choose|j2: int| start.len() <= j2 < before.len()
                                && (#[trigger] before[j2] matches WebSocketEvent::SendToConnection { connection_id, .. }
                                    && connection_id@ == members@[x]@);
                            assert(self.events@[j2] == before[j2]);
                        } else {
                            assert(self.events@[j] matches WebSocketEvent::SendToConnection { connection_id, .. }
                                && connection_id@ == members@[x]@);
                        }
                    }
                }
            }
            i = i + 1;
        }
        proof {
            lemma_broadcast_targets(*old(self), r@, exclude_connection, start, self.events@);
        }
    }

    /// Queues an event that sends `message` to connection `c`.
    pub fn send_to_connection(&mut self, c: &str, message: WebSocketMessage)
        ensures
            final(self).pending().len() == old(self).pending().len() + 1,
            final(self).pending().drop_last() == old(self).pending(),
            final(self).pending().last() matches WebSocketEvent::SendToConnection { connection_id, message: m, sender_node_id }
                && connection_id@ == c@ && m@ == message@ && sender_node_id@ == old(self).node(),
            final(self).connections_view() == old(self).connections_view(),
            forall|c2: Seq<char>, r2: Seq<char>| final(self).in_room(c2, r2) == old(self).in_room(c2, r2),
            final(self).wf() == old(self).wf(),
            final(self).node() == old(self).node(),
    {
        let ghost before = self.events@;
        self.events.push(WebSocketEvent::SendToConnection {
            connection_id: String::from_str(c),
            message,
            sender_node_id: self.node_id.clone(),
        });
        assert(self.events@.drop_last() =~= before);
    }

    /// The connection registered under `c`.
    pub fn get_connection(&self, c: &str) -> (r: Option<&WebSocketConnection>)
        ensures
            match r {
                Some(conn) => self.connections_view().contains_key(c@) && self.connections_view()[c@] == *conn,
                None => !self.connections_view().contains_key(c@),
            },
    {
        self.connections.get(c)
    }

    /// Room `r` with its connections, stamped with the current time; `None`
    /// when no connection is in it.
    pub fn get_room(&self, r: &str) -> (result: Option<WebSocketRoom>)
        requires
            self.wf(),
        ensures
            self.room_names().contains(r@) <==> result is Some,
            result matches Some(room) ==> {
                &&& room.name@ == r@
                &&& forall|i: int| 0 <= i < room.connections@.len() ==> self.in_room(#[trigger] room.connections@[i]@, r@)
                &&& forall|c: Seq<char>| self.in_room(c, r@) ==> exists|i: int| 0 <= i < room.connections@.len() && room.connections@[i]@ == c
                &&& room.metadata@.len() == 0
            },
    {
        if self.rooms.contains_key(r) {
            let connections = self.get_room_connections(r);
            let room = WebSocketRoom {
                name: String::from_str(r),
                connections,
                created_at: now_timestamp() as u64,
                metadata: Vec::new(),
            };
            proof {
                assert forall|c: Seq<char>| self.in_room(c, r@) implies
                    exists|i: int| 0 <= i < room.connections@.len() && room.connections@[i]@ == c by {
                    let i = choose|i: int| 0 <= i < room.connections@.len() && room.connections@[i]@ == c;
                    assert(room.connections@[i]@ == c);
                }
            }
            Some(room)
        } else {
            None
        }
    }

    /// Hands out the queued events, leaving none.
    pub fn take_events(&mut self) -> (r: Vec<WebSocketEvent>)
        ensures
            r@ == old(self).pending(),
            final(self).pending().len() == 0,
            final(self).connections_view() == old(self).connections_view(),
            forall|c: Seq<char>, r2: Seq<char>| final(self).in_room(c, r2) == old(self).in_room(c, r2),
            final(self).wf() == old(self).wf(),
            final(self).node() == old(self).node(),
    {
        let mut taken: Vec<WebSocketEvent> = Vec::new();
        std::mem::swap(&mut taken, &mut self.events);
        taken
    }

    /// The id of this node.
    pub fn get_node_id(&self) -> (r: String)
        ensures
            r@ == self.node(),
    {
        self.node_id.clone()
    }
}

/// Which adapter a configuration asks for.
pub enum AdapterChoice {
    Memory,
    Redis(RedisAdapterConfig),
}

pub open spec fn redis_required_message(kind: Seq<char>) -> Seq<char> {
    "Redis configuration required for "@ + kind + " adapter"@
}

/// The adapter of a configuration: in memory by default; the Redis and cluster
/// adapters need the Redis settings.
pub fn adapter_choice(config: Option<WebSocketAdapterConfig>) -> (r: Result<AdapterChoice, NylonError>)
    ensures
        match config {
            None => r matches Ok(AdapterChoice::Memory),
            Some(c) => match c.adapter_type {
                AdapterType::Memory => r matches Ok(AdapterChoice::Memory),
                AdapterType::Redis => match c.redis {
                    Some(rc) => r matches Ok(AdapterChoice::Redis(x)) && x == rc,
                    None => r matches Err(NylonError::ConfigError(m)) && m@ == redis_required_message("Redis"@),
                },
                AdapterType::Cluster => match c.redis {
                    Some(rc) => r matches Ok(AdapterChoice::Redis(x)) && x == rc,
                    None => r matches Err(NylonError::ConfigError(m)) && m@ == redis_required_message("Cluster"@),
                },
            },
        },
{
    proof {
        reveal_strlit("Redis configuration required for Redis adapter");
        reveal_strlit("Redis configuration required for Cluster adapter");
        reveal_strlit("Redis configuration required for ");
        reveal_strlit(" adapter");
        reveal_strlit("Redis");
        reveal_strlit("Cluster");
    }
    match config {
        None => Ok(AdapterChoice::Memory),
        Some(c) => match c.adapter_type {
            AdapterType::Memory => Ok(AdapterChoice::Memory),
            AdapterType::Redis => match c.redis {
                Some(rc) => Ok(AdapterChoice::Redis(rc)),
                None => {
                    assert("Redis configuration required for Redis adapter"@ =~= redis_required_message("Redis"@));
                    Err(NylonError::ConfigError(String::from_str("Redis configuration required for Redis adapter")))
                },
            },
            AdapterType::Cluster => match c.redis {
                Some(rc) => Ok(AdapterChoice::Redis(rc)),
                None => {
                    assert("Redis configuration required for Cluster adapter"@ =~= redis_required_message("Cluster"@));
                    Err(NylonError::ConfigError(String::from_str("Redis configuration required for Cluster adapter")))
                },
            },
        },
    }
}

/// The senders of the sessions of this node, by connection id.
pub struct LocalSenders<S> {
    senders: TextMap<S>,
}

impl<S> LocalSenders<S> {
    pub closed spec fn view_map(&self) -> Map<Seq<char>, S> {
        self.senders@
    }

    /// No sender registered.
    pub fn new() -> (r: LocalSenders<S>)
        ensures
            r.view_map() == Map::<Seq<char>, S>::empty(),
    {
        LocalSenders { senders: TextMap::new() }
    }

    /// Registers the sender of a connection, replacing an earlier one.
    pub fn register_local_sender(&mut self, connection_id: String, sender: S)
        ensures
            final(self).view_map() == old(self).view_map().insert(connection_id@, sender),
    {
        self.senders.insert(connection_id, sender);
    }

    /// Forgets the sender of a connection.
    pub fn unregister_local_sender(&mut self, connection_id: &str)
        ensures
            final(self).view_map() == old(self).view_map().remove(connection_id@),
    {
        let _ = self.senders.remove(connection_id);
    }

    /// The sender of a connection.
    pub fn get(&self, connection_id: &str) -> (r: Option<&S>)
        ensures
            match r {
                Some(s) => self.view_map().contains_key(connection_id@) && self.view_map()[connection_id@] == *s,
                None => !self.view_map().contains_key(connection_id@),
            },
    {
        self.senders.get(connection_id)
    }

    /// The connections of this node that an adapter event is for: the addressee
    /// of a direct message, or the members of the room of a broadcast but the
    /// excluded one; only connections with a registered sender. Other events are
    /// for nobody here.
    pub fn delivery_targets(&self, event: &WebSocketEvent, adapter: &MemoryAdapter) -> (r: Vec<String>)
        requires
            adapter.wf(),
        ensures
            match event {
                WebSocketEvent::SendToConnection { connection_id, .. } =>
                    if self.view_map().contains_key(connection_id@) {
                        r@.len() == 1 && r@[0]@ == connection_id@
                    } else {
                        r@.len() == 0
                    },
                WebSocketEvent::BroadcastToRoom { room, exclude_connection, .. } => {
                    &&& forall|i: int| 0 <= i < r@.len() ==> adapter.in_room(#[trigger] r@[i]@, room@)
                        && self.view_map().contains_key(r@[i]@)
                        && (exclude_connection is Some ==> r@[i]@ != exclude_connection.unwrap()@)
                    &&& forall|c: Seq<char>| adapter.in_room(c, room@) && self.view_map().contains_key(c)
                        && (exclude_connection is Some ==> c != exclude_connection.unwrap()@)
                        ==> exists|i: int| 0 <= i < r@.len() && r@[i]@ == c
                    &&& forall|a: int, b: int| 0 <= a < b < r@.len() ==> r@[a]@ != r@[b]@
                },
                _ => r@.len() == 0,
            },
    {
        match event {
            WebSocketEvent::SendToConnection { connection_id, .. } => {
                let mut r: Vec<String> = Vec::new();
                if self.senders.contains_key(connection_id.as_str()) {
                    r.push(connection_id.clone());
                }
                r
            },
            WebSocketEvent::BroadcastToRoom { room, exclude_connection, .. } => {
                let members = adapter.get_room_connections(room.as_str());
                let mut r: Vec<String> = Vec::new();
                let mut i: usize = 0;
                while i < members.len()
                    invariant
                        i <= members@.len(),
                        forall|x: int| 0 <= x < members@.len() ==> adapter.in_room(#[trigger] members@[x]@, room@),
                        forall|x: int| 0 <= x < r@.len() ==> adapter.in_room(#[trigger] r@[x]@, room@)
                            && self.view_map().contains_key(r@[x]@)
                            && (exclude_connection is Some ==> r@[x]@ != exclude_connection.unwrap()@),
                        forall|x: int| 0 <= x < i && self.view_map().contains_key(members@[x]@)
                            && (exclude_connection is Some ==> members@[x]@ != exclude_connection.unwrap()@)
                            ==> exists|y: int| 0 <= y < r@.len() && r@[y]@ == #[trigger] members@[x]@,
                        forall|a: int, b: int| 0 <= a < b < members@.len() ==> members@[a]@ != members@[b]@,
                        forall|y: int| 0 <= y < r@.len() ==> exists|x: int| 0 <= x < i && (#[trigger] r@[y])@ == members@[x]@,
                        forall|a: int, b: int| 0 <= a < b < r@.len() ==> r@[a]@ != r@[b]@,
                    decreases members.len() - i,
                {
                    let excluded = match exclude_connection {
                        Some(ex) => text_eq(members[i].as_str(), ex.as_str()),
                        None => false,
                    };
                    if !excluded && self.senders.contains_key(members[i].as_str()) {
                        let ghost before = r@;
                        r.push(members[i].clone());
                        proof {
                            assert(r@[before.len() as int]@ == members@[i as int]@);
                            assert forall|y: int| 0 <= y < r@.len() implies exists|x: int| 0 <= x < i + 1 && (#[trigger] r@[y])@ == members@[x]@ by {
                                if y < before.len() {
                                    assert(r@[y] == before[y]);
                                }
                            }
                            assert forall|a: int, b: int| 0 <= a < b < r@.len() implies r@[a]@ != r@[b]@ by {
                                assert(r@[a] == before[a]);
                                if b < before.len() {
                                    assert(r@[b] == before[b]);
                                } else {
                                    let x = choose|x: int| 0 <= x < i && before[a]@ == members@[x]@;
                                    assert(members@[x]@ != members@[i as int]@);
                                }
                            }
                            assert forall|x: int| 0 <= x < i + 1 && self.view_map().contains_key(members@[x]@)
                                && (exclude_connection is Some ==> members@[x]@ != exclude_connection.unwrap()@)
                                implies exists|y: int| 0 <= y < r@.len() && r@[y]@ == #[trigger] members@[x]@ by {
                                if x < i {
                                    let y = choose|y: int| 0 <= y < before.len() && before[y]@ == members@[x]@;
                                    assert(r@[y] == before[y]);
                                } else {
                                    assert(r@[before.len() as int]@ == members@[x]@);
                                }
                            }
                        }
                    }
                    i = i + 1;
                }
                r
            },
            _ => Vec::new(),
        }
    }
}

} // verus!
