//! Messages exchanged with messaging plugins.
use vstd::prelude::*;

verus! {

/// Version of the plugin messaging protocol.
pub const PROTOCOL_VERSION: u16 = 1;

/// What the plugin asks the proxy to do next.
#[derive(Debug, Clone, Copy, PartialEq, Eq, Structural)]
pub enum ResponseAction {
    Next,
    End,
    Error,
}

/// A request sent to a messaging plugin.
#[derive(Debug, Clone)]
pub struct PluginRequest {
    pub version: u16,
    pub request_id: u128,
    pub session_id: u32,
    pub phase: u8,
    pub method: u32,
    pub data: Vec<u8>,
    pub timestamp: u64,
    pub headers: Option<Vec<(String, String)>>,
}

/// A response of a messaging plugin.
#[derive(Debug, Clone)]
pub struct PluginResponse {
    pub version: u16,
    pub request_id: u128,
    pub session_id: u32,
    pub method: Option<u32>,
    pub action: ResponseAction,
    pub data: Vec<u8>,
    pub error: Option<String>,
    pub headers: Option<Vec<(String, String)>>,
}

/// Calls `uuid::Uuid::now_v7` and returns it as a number (`as_u128`): a
/// time-ordered random identifier with version nibble 7, as the crate's
/// documentation of version-7 UUIDs gives. Nothing else is promised of it.
#[verifier::external_body]
pub fn new_request_id() -> (r: u128)
    ensures
        crate::types::eval::uuid_version(r) == 7,
{
    uuid::Uuid::now_v7().as_u128()
}

} // verus!
