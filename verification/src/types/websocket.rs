//! WebSocket cluster types.
use vstd::prelude::*;

verus! {

#[derive(Debug, Clone)]
pub struct WebSocketAdapterConfig {
    pub adapter_type: AdapterType,
    pub redis: Option<RedisAdapterConfig>,
    pub cluster: Option<ClusterAdapterConfig>,
}

#[derive(Debug, Clone, Copy, PartialEq, Eq, Structural)]
pub enum AdapterType {
    Memory,
    Redis,
    Cluster,
}

#[derive(Debug, Clone)]
pub struct RedisAdapterConfig {
    pub host: String,
    pub port: u16,
    pub password: Option<String>,
    pub db: Option<u8>,
    pub key_prefix: Option<String>,
}

#[derive(Debug, Clone)]
pub struct ClusterAdapterConfig {
    pub nodes: Vec<String>,
    pub key_prefix: Option<String>,
}

/// WebSocket connection information
#[derive(Debug, Clone)]
pub struct WebSocketConnection {
    pub id: String,
    pub session_id: u32,
    pub rooms: Vec<String>,
    pub node_id: String,
    pub connected_at: u64,
    pub metadata: Vec<(String, String)>,
}

/// WebSocket room information
#[derive(Debug, Clone)]
pub struct WebSocketRoom {
    pub name: String,
    pub connections: Vec<String>,
    pub created_at: u64,
    pub metadata: Vec<(String, String)>,
}

/// WebSocket message types
#[derive(Debug)]
pub enum WebSocketMessage {
    Text(String),
    Binary(Vec<u8>),
    Close { code: u16, reason: String },
    Ping(Vec<u8>),
    Pong(Vec<u8>),
}

/// A message with its text and bytes taken by value.
pub enum MessageView {
    Text(Seq<char>),
    Binary(Seq<u8>),
    Close { code: u16, reason: Seq<char> },
    Ping(Seq<u8>),
    Pong(Seq<u8>),
}

impl View for WebSocketMessage {
    type V = MessageView;

    open spec fn view(&self) -> MessageView {
        match self {
            WebSocketMessage::Text(t) => MessageView::Text(t@),
            WebSocketMessage::Binary(b) => MessageView::Binary(b@),
            WebSocketMessage::Close { code, reason } => MessageView::Close { code: *code, reason: reason@ },
            WebSocketMessage::Ping(b) => MessageView::Ping(b@),
            WebSocketMessage::Pong(b) => MessageView::Pong(b@),
        }
    }
}

fn copy_bytes(b: &Vec<u8>) -> (r: Vec<u8>)
    ensures
        r@ == b@,
{
    let mut r: Vec<u8> = Vec::new();
    let mut i: usize = 0;
    while i < b.len()
        invariant
            i <= b@.len(),
            r@ == b@.subrange(0, i as int),
        decreases b.len() - i,
    {
        r.push(b[i]);
        i = i + 1;
        assert(r@ =~= b@.subrange(0, i as int));
    }
    assert(b@.subrange(0, i as int) =~= b@);
    r
}

impl Clone for WebSocketMessage {
    fn clone(&self) -> (r: Self)
        ensures
            r@ == self@,
    {
        match self {
            WebSocketMessage::Text(t) => WebSocketMessage::Text(t.clone()),
            WebSocketMessage::Binary(b) => WebSocketMessage::Binary(copy_bytes(b)),
            WebSocketMessage::Close { code, reason } => WebSocketMessage::Close { code: *code, reason: reason.clone() },
            WebSocketMessage::Ping(b) => WebSocketMessage::Ping(copy_bytes(b)),
            WebSocketMessage::Pong(b) => WebSocketMessage::Pong(copy_bytes(b)),
        }
    }
}

/// WebSocket event types for cluster communication
#[derive(Debug)]
pub enum WebSocketEvent {
    JoinRoom { connection_id: String, room: String, node_id: String },
    LeaveRoom { connection_id: String, room: String, node_id: String },
    Disconnect { connection_id: String, node_id: String },
    BroadcastToRoom {
        room: String,
        message: WebSocketMessage,
        exclude_connection: Option<String>,
        sender_node_id: String,
    },
    SendToConnection { connection_id: String, message: WebSocketMessage, sender_node_id: String },
}

} // verus!
