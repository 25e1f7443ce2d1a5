//! Methods that a plugin may invoke over messaging, where there is no session
//! stream to answer on.
use vstd::prelude::*;
use vstd::string::*;
use crate::error::NylonError;
use crate::plugin::constants as methods;
use crate::plugin::session::{SessionAction, SessionHandler, same_request_state};
use crate::plugin::types::PluginResult;
use crate::text::{decimal_string, u64_to_decimal, utf8_lossy};
use crate::types::context::NylonContext;
use crate::types::transport::TransportInvoke;

verus! {

/// The methods that change the response and that messaging carries.
pub open spec fn spec_method_supported(m: u32) -> bool {
    ||| m == methods::NEXT || m == methods::END
    ||| m == methods::SET_RESPONSE_HEADER || m == methods::REMOVE_RESPONSE_HEADER
    ||| m == methods::SET_RESPONSE_STATUS || m == methods::SET_RESPONSE_FULL_BODY
    ||| m == methods::SET_RESPONSE_STREAM_HEADER || m == methods::SET_RESPONSE_STREAM_DATA
    ||| m == methods::SET_RESPONSE_STREAM_END
}

/// The read methods: over messaging they are accepted and answered with nothing.
pub open spec fn spec_read_method(m: u32) -> bool {
    ||| m == methods::GET_PAYLOAD || m == methods::READ_RESPONSE_FULL_BODY
    ||| m == methods::READ_REQUEST_FULL_BODY || m == methods::READ_REQUEST_HEADER
    ||| m == methods::READ_REQUEST_HEADERS || m == methods::READ_REQUEST_URL
    ||| m == methods::READ_REQUEST_PATH || m == methods::READ_REQUEST_QUERY
    ||| m == methods::READ_REQUEST_PARAMS || m == methods::READ_REQUEST_HOST
    ||| m == methods::READ_REQUEST_CLIENT_IP || m == methods::READ_REQUEST_METHOD
    ||| m == methods::READ_RESPONSE_STATUS || m == methods::READ_REQUEST_BYTES
    ||| m == methods::READ_RESPONSE_BYTES || m == methods::READ_REQUEST_TIMESTAMP
    ||| m == methods::READ_RESPONSE_HEADERS || m == methods::READ_RESPONSE_DURATION
    ||| m == methods::READ_RESPONSE_ERROR
}

/// The WebSocket methods, which messaging does not carry.
pub open spec fn spec_websocket_method(m: u32) -> bool {
    ||| m == methods::WEBSOCKET_UPGRADE || m == methods::WEBSOCKET_SEND_TEXT
    ||| m == methods::WEBSOCKET_SEND_BINARY || m == methods::WEBSOCKET_CLOSE
    ||| m == methods::WEBSOCKET_JOIN_ROOM || m == methods::WEBSOCKET_LEAVE_ROOM
    ||| m == methods::WEBSOCKET_BROADCAST_ROOM_TEXT || m == methods::WEBSOCKET_BROADCAST_ROOM_BINARY
}

/// Whether a method is carried by the messaging transport.
pub fn is_method_supported(method: u32) -> (r: bool)
    ensures
        r == spec_method_supported(method),
{
    method == methods::NEXT || method == methods::END || method == methods::SET_RESPONSE_HEADER
        || method == methods::REMOVE_RESPONSE_HEADER || method == methods::SET_RESPONSE_STATUS
        || method == methods::SET_RESPONSE_FULL_BODY || method == methods::SET_RESPONSE_STREAM_HEADER
        || method == methods::SET_RESPONSE_STREAM_DATA || method == methods::SET_RESPONSE_STREAM_END
}

fn is_read_method(m: u32) -> (r: bool)
    ensures
        r == spec_read_method(m),
{
    m == methods::GET_PAYLOAD || m == methods::READ_RESPONSE_FULL_BODY || m == methods::READ_REQUEST_FULL_BODY
        || m == methods::READ_REQUEST_HEADER || m == methods::READ_REQUEST_HEADERS || m == methods::READ_REQUEST_URL
        || m == methods::READ_REQUEST_PATH || m == methods::READ_REQUEST_QUERY || m == methods::READ_REQUEST_PARAMS
        || m == methods::READ_REQUEST_HOST || m == methods::READ_REQUEST_CLIENT_IP || m == methods::READ_REQUEST_METHOD
        || m == methods::READ_RESPONSE_STATUS || m == methods::READ_REQUEST_BYTES || m == methods::READ_RESPONSE_BYTES
        || m == methods::READ_REQUEST_TIMESTAMP || m == methods::READ_RESPONSE_HEADERS
        || m == methods::READ_RESPONSE_DURATION || m == methods::READ_RESPONSE_ERROR
}

fn is_websocket_method(m: u32) -> (r: bool)
    ensures
        r == spec_websocket_method(m),
{
    m == methods::WEBSOCKET_UPGRADE || m == methods::WEBSOCKET_SEND_TEXT || m == methods::WEBSOCKET_SEND_BINARY
        || m == methods::WEBSOCKET_CLOSE || m == methods::WEBSOCKET_JOIN_ROOM || m == methods::WEBSOCKET_LEAVE_ROOM
        || m == methods::WEBSOCKET_BROADCAST_ROOM_TEXT || m == methods::WEBSOCKET_BROADCAST_ROOM_BINARY
}

pub open spec fn websocket_unsupported_message(method: u32) -> Seq<char> {
    "WebSocket method "@ + decimal_string(method as nat) + " not supported in messaging transport"@
}

pub open spec fn invalid_messaging_method_message(method: u32) -> Seq<char> {
    "Invalid method: "@ + decimal_string(method as nat)
}

/// Decides what a method invoked over messaging does: the control and response
/// methods act as on a session, the read methods are answered with nothing, the
/// WebSocket methods and unknown methods are refused.
pub fn process_messaging_method(inv: TransportInvoke, ctx: &mut NylonContext) -> (r: Result<SessionAction, NylonError>)
    ensures
        r is Ok <==> spec_method_supported(inv.method) || spec_read_method(inv.method),
        spec_websocket_method(inv.method) ==> (r matches Err(NylonError::ConfigError(m))
            && m@ == websocket_unsupported_message(inv.method)),
        !spec_method_supported(inv.method) && !spec_read_method(inv.method) && !spec_websocket_method(inv.method)
            ==> (r matches Err(NylonError::ConfigError(m)) && m@ == invalid_messaging_method_message(inv.method)),
        spec_read_method(inv.method) ==> (r matches Ok(SessionAction::Finish(None))),
        same_request_state(*old(ctx), *final(ctx)),
        inv.method == methods::NEXT ==> (r matches Ok(SessionAction::Finish(Some(p))) && !p.http_end && !p.stream_end),
        inv.method == methods::END ==> (r matches Ok(SessionAction::Finish(Some(p))) && p.http_end && !p.stream_end),
        inv.method == methods::SET_RESPONSE_HEADER ==> (r matches Ok(SessionAction::SetResponseHeader(d)) && d@ == inv.data@),
        inv.method == methods::REMOVE_RESPONSE_HEADER || inv.method == methods::SET_RESPONSE_STATUS
            || inv.method == methods::SET_RESPONSE_FULL_BODY ==> (r matches Ok(SessionAction::Finish(None))),
        inv.method == methods::REMOVE_RESPONSE_HEADER ==> {
            &&& final(ctx).remove_response_header@.len() == old(ctx).remove_response_header@.len() + 1
            &&& final(ctx).remove_response_header@.last()@ == utf8_lossy(inv.data@)
            &&& forall|i: int| 0 <= i < old(ctx).remove_response_header@.len() ==>
                    final(ctx).remove_response_header@[i] == old(ctx).remove_response_header@[i]
        },
        inv.method != methods::REMOVE_RESPONSE_HEADER ==> final(ctx).remove_response_header == old(ctx).remove_response_header,
        inv.method == methods::SET_RESPONSE_STATUS && inv.data@.len() >= 2
            ==> final(ctx).set_response_status == inv.data@[0] as int * 256 + inv.data@[1] as int,
        !(inv.method == methods::SET_RESPONSE_STATUS && inv.data@.len() >= 2)
            ==> final(ctx).set_response_status == old(ctx).set_response_status,
        inv.method == methods::SET_RESPONSE_FULL_BODY ==> final(ctx).set_response_body@ == inv.data@,
        inv.method != methods::SET_RESPONSE_FULL_BODY ==> final(ctx).set_response_body == old(ctx).set_response_body,
        inv.method == methods::SET_RESPONSE_STREAM_HEADER ==> (r matches Ok(SessionAction::StreamHeader)),
        inv.method == methods::SET_RESPONSE_STREAM_DATA ==> (r matches Ok(SessionAction::StreamData(d)) && d@ == inv.data@),
        inv.method == methods::SET_RESPONSE_STREAM_END ==> (r matches Ok(SessionAction::StreamEnd)),
{
    let method = inv.method;
    let data = inv.data;
    if method == methods::NEXT {
        Ok(SessionAction::Finish(Some(PluginResult::new(false, false))))
    } else if method == methods::END {
        Ok(SessionAction::Finish(Some(PluginResult::new(true, false))))
    } else if method == methods::SET_RESPONSE_HEADER {
        Ok(SessionAction::SetResponseHeader(data))
    } else if method == methods::REMOVE_RESPONSE_HEADER {
        SessionHandler::handle_remove_response_header(data.as_slice(), ctx);
        Ok(SessionAction::Finish(None))
    } else if method == methods::SET_RESPONSE_STATUS {
        SessionHandler::handle_set_response_status(data.as_slice(), ctx);
        Ok(SessionAction::Finish(None))
    } else if method == methods::SET_RESPONSE_FULL_BODY {
        SessionHandler::handle_set_response_full_body(data, ctx);
        Ok(SessionAction::Finish(None))
    } else if method == methods::SET_RESPONSE_STREAM_HEADER {
        Ok(SessionAction::StreamHeader)
    } else if method == methods::SET_RESPONSE_STREAM_DATA {
        Ok(SessionAction::StreamData(data))
    } else if method == methods::SET_RESPONSE_STREAM_END {
        Ok(SessionAction::StreamEnd)
    } else if is_read_method(method) {
        Ok(SessionAction::Finish(None))
    } else if is_websocket_method(method) {
        let msg = String::from_str("WebSocket method ").concat(u64_to_decimal(method as u64).as_str())
            .concat(" not supported in messaging transport");
        proof {
            reveal_strlit("WebSocket method ");
            reveal_strlit(" not supported in messaging transport");
        }
        Err(NylonError::ConfigError(msg))
    } else {
        let msg = String::from_str("Invalid method: ").concat(u64_to_decimal(method as u64).as_str());
        proof {
            reveal_strlit("Invalid method: ");
        }
        Err(NylonError::ConfigError(msg))
    }
}

} // verus!
