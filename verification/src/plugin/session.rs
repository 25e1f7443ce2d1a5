//! What the proxy does with a method that a plugin invokes on its session.
//!
//! `SessionHandler::process_method` decides: it changes the request state where
//! that is all a method asks, computes the bytes of each answer it can compute,
//! and names the work that needs the live HTTP session.
use vstd::prelude::*;
use vstd::string::*;
use vstd::utf8::encode_utf8;
use crate::error::NylonError;
use crate::plugin::constants as methods;
use crate::plugin::messaging::now_unix_millis;
use crate::plugin::types::PluginResult;
use crate::store::websockets::WEBSOCKET_GUID;
use crate::text::{
    decimal_string, i64_to_decimal, lossy_string, parse_i64, signed_decimal, spec_parse_i64,
    u64_to_decimal, utf8_bytes, utf8_lossy,
};
use crate::types::context::NylonContext;
use crate::types::eval::text_eq;

verus! {

/// What remains to be done for a method once `process_method` has decided.
pub enum SessionAction {
    /// Nothing: the method is done, with this result.
    Finish(Option<PluginResult>),
    /// Answer the plugin: an event of this method with these bytes.
    Reply(u32, Vec<u8>),
    /// Render the configured payload against the request and send it.
    SendPayload,
    /// Decode a header (name and value) from these bytes and set it on the response.
    SetResponseHeader(Vec<u8>),
    /// Run the response filters and send the response header.
    StreamHeader,
    /// Send these bytes as a chunk of the response body.
    StreamData(Vec<u8>),
    /// End the response; the method's result is then the end of the stream.
    StreamEnd,
    /// Read the whole request body (once per request) and send it.
    ReadRequestFullBody,
    /// Send the value of this request header (an empty answer when there is no name).
    ReadRequestHeader(Option<String>),
    ReadRequestHeaders,
    /// Send the URL of the request (see `request_url`).
    ReadRequestUrl,
    ReadRequestPath,
    ReadRequestQuery,
    ReadRequestParams,
    ReadRequestMethod,
    /// Send the request's `Content-Length` (see `request_bytes_text`).
    ReadRequestBytes,
    ReadResponseHeaders,
    /// Answer the WebSocket handshake (see `upgrade_reply`).
    WebSocketUpgrade,
    /// Send this frame to the client.
    WebSocketSend(Vec<u8>),
    /// Send this close frame and end the response; the stream ends.
    WebSocketClose(Vec<u8>),
    JoinRoom(String),
    LeaveRoom(String),
    BroadcastText(String, String),
    BroadcastBinary(String, Vec<u8>),
}

impl SessionAction {
    /// The result of the method once the action has been carried out.
    pub open spec fn spec_completion(&self) -> Option<PluginResult> {
        match self {
            SessionAction::Finish(r) => *r,
            SessionAction::StreamEnd => Some(PluginResult { http_end: false, stream_end: true }),
            SessionAction::WebSocketClose(_) => Some(PluginResult { http_end: false, stream_end: true }),
            _ => None,
        }
    }

    /// The result of the method once the action has been carried out.
    pub fn completion(&self) -> (r: Option<PluginResult>)
        ensures
            r == self.spec_completion(),
    {
        match self {
            SessionAction::Finish(r) => *r,
            SessionAction::StreamEnd => Some(PluginResult::new(false, true)),
            SessionAction::WebSocketClose(_) => Some(PluginResult::new(false, true)),
            _ => None,
        }
    }
}

/// How the WebSocket handshake is answered.
pub enum UpgradeReply {
    /// A plain response with this status and body; the exchange ends.
    Reject { status: u16, body: &'static str },
    /// `101 Switching Protocols` with this `Sec-WebSocket-Accept`.
    Accept { accept_key: String },
}

/// The bytes of the length field of a server frame carrying `n` bytes: the
/// length itself, or 126 and two bytes, or 127 and eight bytes, most significant first.
pub open spec fn ws_length_bytes(n: nat) -> Seq<u8> {
    if n <= 125 {
        seq![n as u8]
    } else if n <= 65535 {
        seq![126u8, (n / 256) as u8, (n % 256) as u8]
    } else {
        let q1 = n / 256;
        let q2 = q1 / 256;
        let q3 = q2 / 256;
        let q4 = q3 / 256;
        let q5 = q4 / 256;
        let q6 = q5 / 256;
        let q7 = q6 / 256;
        seq![127u8,
            (q7 % 256) as u8, (q6 % 256) as u8, (q5 % 256) as u8, (q4 % 256) as u8,
            (q3 % 256) as u8, (q2 % 256) as u8, (q1 % 256) as u8, (n % 256) as u8]
    }
}

/// An unmasked, final WebSocket frame (RFC 6455, section 5.2).
pub open spec fn ws_frame(opcode: u8, payload: Seq<u8>) -> Seq<u8> {
    seq![(128 + opcode % 16) as u8] + ws_length_bytes(payload.len()) + payload
}

/// Index of the first zero byte at or after `i`.
pub open spec fn nul_index(d: Seq<u8>, i: int) -> Option<int>
    decreases d.len() - i,
{
    if i < 0 || i >= d.len() {
        None
    } else if d[i] == 0 {
        Some(i)
    } else {
        nul_index(d, i + 1)
    }
}

/// `room NUL payload`, with a nonempty room.
pub open spec fn spec_split_room(d: Seq<u8>) -> Option<(Seq<char>, Seq<u8>)> {
    match nul_index(d, 0) {
        Some(pos) => if pos > 0 {
            Some((utf8_lossy(d.subrange(0, pos)), d.subrange(pos + 1, d.len() as int)))
        } else {
            None
        },
        None => None,
    }
}

/// The URL of a request: scheme, host, the port unless it is empty, 80 or 443, then
/// the path and query.
pub open spec fn spec_request_url(tls: bool, host: Seq<char>, port: Seq<char>, path_and_query: Seq<char>) -> Seq<char> {
    let scheme = if tls { "https"@ } else { "http"@ };
    let host_part = if port.len() > 0 && port != "80"@ && port != "443"@ { host + ":"@ + port } else { host };
    scheme + "://"@ + host_part + path_and_query
}

/// The `Content-Length` as text: its value when it is a decimal `i64`, else 0.
pub open spec fn spec_request_bytes(content_length: Option<Seq<char>>) -> Seq<char> {
    match content_length {
        Some(t) => match spec_parse_i64(t) {
            Some(n) => signed_decimal(n),
            None => "0"@,
        },
        None => "0"@,
    }
}

/// SHA-1 of some bytes.
pub uninterp spec fn sha1_of(data: Seq<u8>) -> Seq<u8>;

/// The character of a 6-bit value in the standard base64 alphabet.
pub open spec fn base64_digit(n: int) -> char {
    if n < 26 {
        ('A' as int + n) as char
    } else if n < 52 {
        ('a' as int + (n - 26)) as char
    } else if n < 62 {
        ('0' as int + (n - 52)) as char
    } else if n == 62 {
        '+'
    } else {
        '/'
    }
}

/// Standard base64 (with `=` padding) of some bytes: each group of three bytes,
/// read as 24 bits, gives four characters of six bits each, most significant
/// first; a last group of one or two bytes is filled with zero bits and its
/// missing characters are `=`.
pub open spec fn base64_of(data: Seq<u8>) -> Seq<char>
    decreases data.len(),
{
    if data.len() == 0 {
        Seq::empty()
    } else {
        let b0 = data[0] as int;
        let b1 = if data.len() > 1 { data[1] as int } else { 0 };
        let b2 = if data.len() > 2 { data[2] as int } else { 0 };
        let n = b0 * 65536 + b1 * 256 + b2;
        let group = seq![
            base64_digit(n / 262144),
            base64_digit((n / 4096) % 64),
            if data.len() > 1 { base64_digit((n / 64) % 64) } else { '=' },
            if data.len() > 2 { base64_digit(n % 64) } else { '=' }
        ];
        if data.len() <= 3 {
            group
        } else {
            group + base64_of(data.subrange(3, data.len() as int))
        }
    }
}

/// Calls `sha1::Sha1::digest`: the 20-byte SHA-1 digest of `data`.
#[verifier::external_body]
fn sha1_digest(data: &[u8]) -> (r: Vec<u8>)
    ensures
        r@ == sha1_of(data@),
        r@.len() == 20,
{
    <sha1::Sha1 as sha1::Digest>::digest(data).to_vec()
}

/// The standard base64 character of a 6-bit value.
fn base64_char(n: u32) -> (c: char)
    requires
        n < 64,
    ensures
        c == base64_digit(n as int),
{
    if n < 26 {
        let b: u8 = 65u8 + n as u8;
        b as char
    } else if n < 52 {
        let b: u8 = 97u8 + (n - 26) as u8;
        b as char
    } else if n < 62 {
        let b: u8 = 48u8 + (n - 52) as u8;
        b as char
    } else if n == 62 {
        '+'
    } else {
        '/'
    }
}

/// Padded standard base64 (RFC 4648) of some bytes, as `base64_of` states it.
fn base64_encode(data: &[u8]) -> (r: String)
    ensures
        r@ == base64_of(data@),
{
    let ghost d = data@;
    let mut out: Vec<char> = Vec::new();
    let mut i: usize = 0;
    assert(d.subrange(0, d.len() as int) =~= d);
    while i < data.len()
        invariant
            d == data@,
            i <= d.len(),
            out@ + base64_of(d.subrange(i as int, d.len() as int)) == base64_of(d),
        decreases data.len() - i,
    {
        let ghost rest = d.subrange(i as int, d.len() as int);
        let left = data.len() - i;
        let b0 = data[i] as u32;
        let b1: u32 = if left > 1 { data[i + 1] as u32 } else { 0 };
        let b2: u32 = if left > 2 { data[i + 2] as u32 } else { 0 };
        let n: u32 = b0 * 65536 + b1 * 256 + b2;
        let c0 = base64_char(n / 262144);
        let c1 = base64_char((n / 4096) % 64);
        let c2 = if left > 1 { base64_char((n / 64) % 64) } else { '=' };
        let c3 = if left > 2 { base64_char(n % 64) } else { '=' };
        let ghost before = out@;
        out.push(c0);
        out.push(c1);
        out.push(c2);
        out.push(c3);
        proof {
            assert(rest[0] == data@[i as int]);
            assert(left > 1 ==> rest[1] == data@[i + 1]);
            assert(left > 2 ==> rest[2] == data@[i + 2]);
            let group = seq![c0, c1, c2, c3];
            assert(out@ =~= before + group);
            if left > 3 {
                assert(rest.subrange(3, rest.len() as int) =~= d.subrange(i + 3, d.len() as int));
                assert(base64_of(rest) == group + base64_of(d.subrange(i + 3, d.len() as int)));
                assert(out@ + base64_of(d.subrange(i + 3, d.len() as int)) =~= before + base64_of(rest));
            } else {
                assert(base64_of(rest) == group);
                assert(d.subrange(d.len() as int, d.len() as int) =~= Seq::<u8>::empty());
                assert(out@ + base64_of(d.subrange(d.len() as int, d.len() as int)) =~= before + base64_of(rest));
            }
        }
        i = if left > 3 { i + 3 } else { data.len() };
    }
    assert(d.subrange(i as int, d.len() as int) =~= Seq::<u8>::empty());
    assert(out@ + base64_of(Seq::<u8>::empty()) =~= out@);
    crate::text::string_from_chars(out.as_slice())
}

/// The `Sec-WebSocket-Accept` of a client key.
pub open spec fn spec_accept_key(key: Seq<char>) -> Seq<char> {
    base64_of(sha1_of(encode_utf8(key) + encode_utf8(WEBSOCKET_GUID@)))
}

/// Milliseconds from `start` to `now` as text, 0 when `now` is earlier.
pub open spec fn duration_text(now: u64, start: u64) -> Seq<char> {
    decimal_string((if now >= start { now - start } else { 0 }) as nat)
}

pub open spec fn invalid_method_message(method: u32) -> Seq<char> {
    "Invalid method: "@ + decimal_string(method as nat)
}

/// The methods that a plugin session knows.
pub open spec fn known_session_method(m: u32) -> bool {
    ||| m == methods::GET_PAYLOAD || m == methods::NEXT || m == methods::END
    ||| m == methods::SET_RESPONSE_HEADER || m == methods::REMOVE_RESPONSE_HEADER
    ||| m == methods::SET_RESPONSE_STATUS || m == methods::SET_RESPONSE_FULL_BODY
    ||| m == methods::SET_RESPONSE_STREAM_HEADER || m == methods::SET_RESPONSE_STREAM_DATA
    ||| m == methods::SET_RESPONSE_STREAM_END || m == methods::READ_RESPONSE_FULL_BODY
    ||| m == methods::READ_REQUEST_FULL_BODY || m == methods::READ_REQUEST_HEADER
    ||| m == methods::READ_REQUEST_HEADERS || m == methods::READ_REQUEST_URL
    ||| m == methods::READ_REQUEST_PATH || m == methods::READ_REQUEST_QUERY
    ||| m == methods::READ_REQUEST_PARAMS || m == methods::READ_REQUEST_HOST
    ||| m == methods::READ_REQUEST_CLIENT_IP || m == methods::READ_REQUEST_METHOD
    ||| m == methods::READ_RESPONSE_STATUS || m == methods::READ_REQUEST_BYTES
    ||| m == methods::READ_RESPONSE_BYTES || m == methods::READ_REQUEST_TIMESTAMP
    ||| m == methods::READ_RESPONSE_HEADERS || m == methods::READ_RESPONSE_DURATION
    ||| m == methods::READ_RESPONSE_ERROR
    ||| m == methods::WEBSOCKET_UPGRADE || m == methods::WEBSOCKET_SEND_TEXT
    ||| m == methods::WEBSOCKET_SEND_BINARY || m == methods::WEBSOCKET_CLOSE
    ||| m == methods::WEBSOCKET_JOIN_ROOM || m == methods::WEBSOCKET_LEAVE_ROOM
    ||| m == methods::WEBSOCKET_BROADCAST_ROOM_TEXT || m == methods::WEBSOCKET_BROADCAST_ROOM_BINARY
}

/// Everything but the response overrides (removed headers, status, body) is the same.
pub open spec fn same_request_state(a: NylonContext, b: NylonContext) -> bool {
    &&& a.client_ip == b.client_ip
    &&& a.params == b.params
    &&& a.host == b.host
    &&& a.port == b.port
    &&& a.tls == b.tls
    &&& a.session_ids == b.session_ids
    &&& a.add_response_header == b.add_response_header
    &&& a.read_body == b.read_body
    &&& a.request_body == b.request_body
    &&& a.request_timestamp == b.request_timestamp
    &&& a.error_message == b.error_message
}

/// `a` and `b` agree on the request: everything but the response overrides.
pub open spec fn same_request(a: NylonContext, b: NylonContext) -> bool {
    &&& a.client_ip == b.client_ip
    &&& a.params == b.params
    &&& a.host == b.host
    &&& a.port == b.port
    &&& a.tls == b.tls
    &&& a.session_ids == b.session_ids
    &&& a.read_body == b.read_body
    &&& a.request_body == b.request_body
    &&& a.request_timestamp == b.request_timestamp
    &&& a.error_message == b.error_message
}

/// The body of the response so far: what plugins set, then the upstream's.
pub open spec fn spec_full_body(ctx: NylonContext, response_body: Option<Vec<u8>>) -> Seq<u8> {
    ctx.set_response_body@ + match response_body { Some(b) => b@, None => Seq::empty() }
}

/// The length of the response body so far.
pub open spec fn spec_body_len(ctx: NylonContext, response_body: Option<Vec<u8>>) -> int {
    spec_full_body(ctx, response_body).len() as int
}

/// Handles the methods that plugins invoke on a session.
pub struct SessionHandler;

impl SessionHandler {
    /// An unmasked, final WebSocket frame with the given opcode and payload.
    pub fn build_ws_frame(opcode: u8, payload: &[u8]) -> (r: Vec<u8>)
        ensures
            r@ == ws_frame(opcode, payload@),
    {
        let mut frame: Vec<u8> = Vec::new();
        frame.push(0x80 + opcode % 16);
        let len = payload.len();
        if len <= 125 {
            frame.push(len as u8);
        } else if len <= 65535 {
            frame.push(126);
            frame.push((len / 256) as u8);
            frame.push((len % 256) as u8);
        } else {
            let n = len as u64;
            let q1 = n / 256;
            let q2 = q1 / 256;
            let q3 = q2 / 256;
            let q4 = q3 / 256;
            let q5 = q4 / 256;
            let q6 = q5 / 256;
            let q7 = q6 / 256;
            frame.push(127);
            frame.push((q7 % 256) as u8);
            frame.push((q6 % 256) as u8);
            frame.push((q5 % 256) as u8);
            frame.push((q4 % 256) as u8);
            frame.push((q3 % 256) as u8);
            frame.push((q2 % 256) as u8);
            frame.push((q1 % 256) as u8);
            frame.push((n % 256) as u8);
        }
        let ghost head = frame@;
        assert(head =~= seq![(128 + opcode % 16) as u8] + ws_length_bytes(len as nat));
        let mut i: usize = 0;
        while i < len
            invariant
                i <= len == payload@.len(),
                frame@ == head + payload@.subrange(0, i as int),
            decreases len - i,
        {
            frame.push(payload[i]);
            i = i + 1;
            assert(frame@ =~= head + payload@.subrange(0, i as int));
        }
        assert(payload@.subrange(0, len as int) =~= payload@);
        frame
    }

    /// Splits `room NUL payload`; `None` without a NUL or with an empty room.
    pub fn split_room_payload(data: &[u8]) -> (r: Option<(String, Vec<u8>)>)
        ensures
            match r {
                Some((room, payload)) => spec_split_room(data@) == Some((room@, payload@)),
                None => spec_split_room(data@).is_none(),
            },
    {
        let mut pos: usize = 0;
        while pos < data.len() && data[pos] != 0
            invariant
                pos <= data@.len(),
                nul_index(data@, 0) == nul_index(data@, pos as int),
            decreases data.len() - pos,
        {
            pos = pos + 1;
        }
        if pos == data.len() || pos == 0 {
            return None;
        }
        let room = lossy_string(vstd::slice::slice_subrange(data, 0, pos));
        let mut payload: Vec<u8> = Vec::new();
        let mut i: usize = pos + 1;
        while i < data.len()
            invariant
                pos + 1 <= i <= data@.len(),
                payload@ == data@.subrange(pos + 1, i as int),
            decreases data.len() - i,
        {
            payload.push(data[i]);
            i = i + 1;
            assert(payload@ =~= data@.subrange(pos + 1, i as int));
        }
        Some((room, payload))
    }

    /// Sets a header on the response.
    pub fn set_response_header(ctx: &mut NylonContext, name: String, value: String)
        ensures
            final(ctx).add_response_header@ == old(ctx).add_response_header@.insert(name@, value@),
            final(ctx).remove_response_header == old(ctx).remove_response_header,
            final(ctx).set_response_status == old(ctx).set_response_status,
            final(ctx).set_response_body == old(ctx).set_response_body,
            same_request(*old(ctx), *final(ctx)),
    {
        ctx.add_response_header.insert(name, value);
    }

    /// Marks a header (its name is the bytes, read as UTF-8) to be removed from the response.
    pub fn handle_remove_response_header(data: &[u8], ctx: &mut NylonContext)
        ensures
            final(ctx).remove_response_header@.len() == old(ctx).remove_response_header@.len() + 1,
            forall|i: int| 0 <= i < old(ctx).remove_response_header@.len() ==>
                final(ctx).remove_response_header@[i] == old(ctx).remove_response_header@[i],
            final(ctx).remove_response_header@.last()@ == utf8_lossy(data@),
            final(ctx).set_response_status == old(ctx).set_response_status,
            final(ctx).set_response_body == old(ctx).set_response_body,
            same_request_state(*old(ctx), *final(ctx)),
    {
        let name = lossy_string(data);
        ctx.remove_response_header.push(name);
    }

    /// Sets the response status from the first two bytes (big-endian); shorter data
    /// changes nothing.
    pub fn handle_set_response_status(data: &[u8], ctx: &mut NylonContext)
        ensures
            data@.len() >= 2 ==> final(ctx).set_response_status == data@[0] as int * 256 + data@[1] as int,
            data@.len() < 2 ==> final(ctx).set_response_status == old(ctx).set_response_status,
            final(ctx).remove_response_header == old(ctx).remove_response_header,
            final(ctx).set_response_body == old(ctx).set_response_body,
            same_request_state(*old(ctx), *final(ctx)),
    {
        if data.len() >= 2 {
            ctx.set_response_status = (data[0] as u16) * 256 + (data[1] as u16);
        }
    }

    /// Replaces the response body.
    pub fn handle_set_response_full_body(data: Vec<u8>, ctx: &mut NylonContext)
        ensures
            final(ctx).set_response_body@ == data@,
            final(ctx).remove_response_header == old(ctx).remove_response_header,
            final(ctx).set_response_status == old(ctx).set_response_status,
            same_request_state(*old(ctx), *final(ctx)),
    {
        ctx.set_response_body = data;
    }

    /// Adds a chunk read from the request body.
    pub fn append_request_body(ctx: &mut NylonContext, chunk: &[u8])
        ensures
            final(ctx).request_body@ == old(ctx).request_body@ + chunk@,
            final(ctx).read_body == old(ctx).read_body,
            final(ctx).set_response_body == old(ctx).set_response_body,
            final(ctx).set_response_status == old(ctx).set_response_status,
            final(ctx).remove_response_header == old(ctx).remove_response_header,
            final(ctx).add_response_header == old(ctx).add_response_header,
            final(ctx).client_ip == old(ctx).client_ip && final(ctx).params == old(ctx).params,
            final(ctx).host == old(ctx).host && final(ctx).port == old(ctx).port && final(ctx).tls == old(ctx).tls,
            final(ctx).session_ids == old(ctx).session_ids,
            final(ctx).request_timestamp == old(ctx).request_timestamp,
            final(ctx).error_message == old(ctx).error_message,
    {
        let mut i: usize = 0;
        let ghost start = ctx.request_body@;
        while i < chunk.len()
            invariant
                i <= chunk@.len(),
                ctx.request_body@ == start + chunk@.subrange(0, i as int),
                ctx.read_body == old(ctx).read_body,
                ctx.set_response_body == old(ctx).set_response_body,
                ctx.set_response_status == old(ctx).set_response_status,
                ctx.remove_response_header == old(ctx).remove_response_header,
                ctx.add_response_header == old(ctx).add_response_header,
                ctx.client_ip == old(ctx).client_ip && ctx.params == old(ctx).params,
                ctx.host == old(ctx).host && ctx.port == old(ctx).port && ctx.tls == old(ctx).tls,
                ctx.session_ids == old(ctx).session_ids,
                ctx.request_timestamp == old(ctx).request_timestamp,
                ctx.error_message == old(ctx).error_message,
            decreases chunk.len() - i,
        {
            ctx.request_body.push(chunk[i]);
            i = i + 1;
            assert(ctx.request_body@ =~= start + chunk@.subrange(0, i as int));
        }
        assert(chunk@.subrange(0, i as int) =~= chunk@);
    }

    /// The body of the response so far: what plugins set, then the upstream's.
    pub fn response_full_body(ctx: &NylonContext, response_body: &Option<Vec<u8>>) -> (r: Vec<u8>)
        ensures
            r@ == spec_full_body(*ctx, *response_body),
    {
        let mut body: Vec<u8> = Vec::new();
        let mut i: usize = 0;
        while i < ctx.set_response_body.len()
            invariant
                i <= ctx.set_response_body@.len(),
                body@ == ctx.set_response_body@.subrange(0, i as int),
            decreases ctx.set_response_body.len() - i,
        {
            body.push(ctx.set_response_body[i]);
            i = i + 1;
            assert(body@ =~= ctx.set_response_body@.subrange(0, i as int));
        }
        assert(ctx.set_response_body@.subrange(0, i as int) =~= ctx.set_response_body@);
        if let Some(extra) = response_body {
            let ghost start = body@;
            let mut j: usize = 0;
            while j < extra.len()
                invariant
                    j <= extra@.len(),
                    body@ == start + extra@.subrange(0, j as int),
                decreases extra.len() - j,
            {
                body.push(extra[j]);
                j = j + 1;
                assert(body@ =~= start + extra@.subrange(0, j as int));
            }
            assert(extra@.subrange(0, j as int) =~= extra@);
        } else {
            assert(body@ =~= spec_full_body(*ctx, *response_body));
        }
        body
    }

    /// The URL of the request, `scheme://host[:port]path?query`.
    pub fn request_url(tls: bool, host: &str, port: &str, path_and_query: &str) -> (r: String)
        ensures
            r@ == spec_request_url(tls, host@, port@, path_and_query@),
    {
        proof {
            reveal_strlit("https");
            reveal_strlit("http");
            reveal_strlit("://");
            reveal_strlit(":");
            reveal_strlit("80");
            reveal_strlit("443");
        }
        let scheme = if tls { "https" } else { "http" };
        let host_part = if !port.is_empty() && !text_eq(port, "80") && !text_eq(port, "443") {
            String::from_str(host).concat(":").concat(port)
        } else {
            String::from_str(host)
        };
        String::from_str(scheme).concat("://").concat(host_part.as_str()).concat(path_and_query)
    }

    /// The request's `Content-Length` as text, 0 when it is missing or not a number.
    pub fn request_bytes_text(content_length: Option<&str>) -> (r: String)
        ensures
            r@ == spec_request_bytes(match content_length { Some(t) => Some(t@), None => None }),
    {
        proof {
            reveal_strlit("0");
        }
        match content_length {
            Some(t) => match parse_i64(t) {
                Some(n) => i64_to_decimal(n),
                None => String::from_str("0"),
            },
            None => String::from_str("0"),
        }
    }

    /// The `Sec-WebSocket-Accept` answering a client key.
    pub fn websocket_accept_key(key: &str) -> (r: String)
        ensures
            r@ == spec_accept_key(key@),
    {
        let mut input = utf8_bytes(key);
        let mut guid = utf8_bytes(WEBSOCKET_GUID);
        input.append(&mut guid);
        let digest = sha1_digest(input.as_slice());
        base64_encode(digest.as_slice())
    }

    /// How the handshake is answered: refused without a key, else accepted.
    pub fn upgrade_reply(key: &str) -> (r: UpgradeReply)
        ensures
            key@.len() == 0 ==> (r matches UpgradeReply::Reject { status, body }
                && status == 400 && body@ == "Missing Sec-WebSocket-Key"@),
            key@.len() > 0 ==> (r matches UpgradeReply::Accept { accept_key }
                && accept_key@ == spec_accept_key(key@)),
    {
        if key.is_empty() {
            UpgradeReply::Reject { status: 400, body: "Missing Sec-WebSocket-Key" }
        } else {
            UpgradeReply::Accept { accept_key: Self::websocket_accept_key(key) }
        }
    }

    /// The id of the WebSocket connection of a session: `node:session`.
    pub fn connection_id(node_id: &str, session_id: u32) -> (r: String)
        ensures
            r@ == node_id@ + ":"@ + decimal_string(session_id as nat),
    {
        proof {
            reveal_strlit(":");
        }
        String::from_str(node_id).concat(":").concat(u64_to_decimal(session_id as u64).as_str())
    }

    fn reply_text(method: u32, text: &str) -> (r: SessionAction)
        ensures
            r matches SessionAction::Reply(m, p) && m == method && p@ == encode_utf8(text@),
    {
        SessionAction::Reply(method, utf8_bytes(text))
    }

    /// Decides what a method invoked by the plugin does. Changes the response
    /// overrides where the method sets them, and answers from the request state
    /// where it can. Unknown methods are refused.
    pub fn process_method(
        method: u32,
        data: Vec<u8>,
        ctx: &mut NylonContext,
        response_body: &Option<Vec<u8>>,
    ) -> (r: Result<SessionAction, NylonError>)
        requires
            spec_body_len(*old(ctx), *response_body) <= i64::MAX,
        ensures
            known_session_method(method) <==> r is Ok,
            !known_session_method(method) ==> (r matches Err(NylonError::ConfigError(m))
                && m@ == invalid_method_message(method)),
            same_request_state(*old(ctx), *final(ctx)),
            method == methods::REMOVE_RESPONSE_HEADER ==> {
                &&& final(ctx).remove_response_header@.len() == old(ctx).remove_response_header@.len() + 1
                &&& final(ctx).remove_response_header@.last()@ == utf8_lossy(data@)
                &&& forall|i: int| 0 <= i < old(ctx).remove_response_header@.len() ==>
                        final(ctx).remove_response_header@[i] == old(ctx).remove_response_header@[i]
            },
            method != methods::REMOVE_RESPONSE_HEADER ==> final(ctx).remove_response_header == old(ctx).remove_response_header,
            method == methods::SET_RESPONSE_STATUS && data@.len() >= 2
                ==> final(ctx).set_response_status == data@[0] as int * 256 + data@[1] as int,
            !(method == methods::SET_RESPONSE_STATUS && data@.len() >= 2)
                ==> final(ctx).set_response_status == old(ctx).set_response_status,
            method == methods::SET_RESPONSE_FULL_BODY ==> final(ctx).set_response_body@ == data@,
            method != methods::SET_RESPONSE_FULL_BODY ==> final(ctx).set_response_body == old(ctx).set_response_body,
            method == methods::NEXT ==> (r matches Ok(SessionAction::Finish(Some(p))) && !p.http_end && !p.stream_end),
            method == methods::END ==> (r matches Ok(SessionAction::Finish(Some(p))) && p.http_end && !p.stream_end),
            method == methods::GET_PAYLOAD ==> r matches Ok(SessionAction::SendPayload),
            method == methods::SET_RESPONSE_HEADER ==> (r matches Ok(SessionAction::SetResponseHeader(d)) && d@ == data@),
            method == methods::REMOVE_RESPONSE_HEADER || method == methods::SET_RESPONSE_STATUS
                || method == methods::SET_RESPONSE_FULL_BODY ==> r matches Ok(SessionAction::Finish(None)),
            method == methods::SET_RESPONSE_STREAM_HEADER ==> r matches Ok(SessionAction::StreamHeader),
            method == methods::SET_RESPONSE_STREAM_DATA ==> (r matches Ok(SessionAction::StreamData(d)) && d@ == data@),
            method == methods::SET_RESPONSE_STREAM_END ==> r matches Ok(SessionAction::StreamEnd),
            method == methods::READ_RESPONSE_FULL_BODY ==> (r matches Ok(SessionAction::Reply(m, p))
                && m == method && p@ == spec_full_body(*old(ctx), *response_body)),
            method == methods::READ_REQUEST_FULL_BODY ==> r matches Ok(SessionAction::ReadRequestFullBody),
            method == methods::READ_REQUEST_HEADER ==> (r matches Ok(SessionAction::ReadRequestHeader(k))
                && (data@.len() == 0 <==> k.is_none())
                && (k.is_some() ==> k.unwrap()@ == utf8_lossy(data@))),
            method == methods::READ_REQUEST_HEADERS ==> r matches Ok(SessionAction::ReadRequestHeaders),
            method == methods::READ_REQUEST_URL ==> r matches Ok(SessionAction::ReadRequestUrl),
            method == methods::READ_REQUEST_PATH ==> r matches Ok(SessionAction::ReadRequestPath),
            method == methods::READ_REQUEST_QUERY ==> r matches Ok(SessionAction::ReadRequestQuery),
            method == methods::READ_REQUEST_PARAMS ==> r matches Ok(SessionAction::ReadRequestParams),
            method == methods::READ_REQUEST_HOST ==> (r matches Ok(SessionAction::Reply(m, p))
                && m == method && p@ == encode_utf8(old(ctx).host@)),
            method == methods::READ_REQUEST_CLIENT_IP ==> (r matches Ok(SessionAction::Reply(m, p))
                && m == method && p@ == encode_utf8(old(ctx).client_ip@)),
            method == methods::READ_REQUEST_METHOD ==> r matches Ok(SessionAction::ReadRequestMethod),
            method == methods::READ_RESPONSE_STATUS ==> (r matches Ok(SessionAction::Reply(m, p))
                && m == method && p@ == encode_utf8(decimal_string(old(ctx).set_response_status as nat))),
            method == methods::READ_REQUEST_BYTES ==> r matches Ok(SessionAction::ReadRequestBytes),
            method == methods::READ_RESPONSE_BYTES ==> (r matches Ok(SessionAction::Reply(m, p))
                && m == method && p@ == encode_utf8(signed_decimal(spec_body_len(*old(ctx), *response_body)))),
            method == methods::READ_REQUEST_TIMESTAMP ==> (r matches Ok(SessionAction::Reply(m, p))
                && m == method && p@ == encode_utf8(decimal_string(old(ctx).request_timestamp as nat))),
            method == methods::READ_RESPONSE_HEADERS ==> r matches Ok(SessionAction::ReadResponseHeaders),
            method == methods::READ_RESPONSE_DURATION ==> (r matches Ok(SessionAction::Reply(m, p))
                && m == method && exists|now: u64| p@ == encode_utf8(#[trigger] duration_text(now, old(ctx).request_timestamp))),
            method == methods::READ_RESPONSE_ERROR ==> (r matches Ok(SessionAction::Reply(m, p))
                && m == method && p@ == encode_utf8(match old(ctx).error_message { Some(e) => e@, None => Seq::empty() })),
            method == methods::WEBSOCKET_UPGRADE ==> r matches Ok(SessionAction::WebSocketUpgrade),
            method == methods::WEBSOCKET_SEND_TEXT ==> (r matches Ok(SessionAction::WebSocketSend(f)) && f@ == ws_frame(1, data@)),
            method == methods::WEBSOCKET_SEND_BINARY ==> (r matches Ok(SessionAction::WebSocketSend(f)) && f@ == ws_frame(2, data@)),
            method == methods::WEBSOCKET_CLOSE ==> (r matches Ok(SessionAction::WebSocketClose(f)) && f@ == ws_frame(8, Seq::empty())),
            method == methods::WEBSOCKET_JOIN_ROOM ==> (if data@.len() == 0 {
                r matches Ok(SessionAction::Finish(None))
            } else {
                r matches Ok(SessionAction::JoinRoom(room)) && room@ == utf8_lossy(data@)
            }),
            method == methods::WEBSOCKET_LEAVE_ROOM ==> (if data@.len() == 0 {
                r matches Ok(SessionAction::Finish(None))
            } else {
                r matches Ok(SessionAction::LeaveRoom(room)) && room@ == utf8_lossy(data@)
            }),
            method == methods::WEBSOCKET_BROADCAST_ROOM_TEXT ==> match spec_split_room(data@) {
                Some((room, payload)) => r matches Ok(SessionAction::BroadcastText(rm, msg))
                    && rm@ == room && msg@ == utf8_lossy(payload),
                None => r matches Ok(SessionAction::Finish(None)),
            },
            method == methods::WEBSOCKET_BROADCAST_ROOM_BINARY ==> match spec_split_room(data@) {
                Some((room, payload)) => r matches Ok(SessionAction::BroadcastBinary(rm, msg))
                    && rm@ == room && msg@ == payload,
                None => r matches Ok(SessionAction::Finish(None)),
            },
    {
        if method == methods::GET_PAYLOAD {
            Ok(SessionAction::SendPayload)
        } else if method == methods::NEXT {
            Ok(SessionAction::Finish(Some(PluginResult::new(false, false))))
        } else if method == methods::END {
            Ok(SessionAction::Finish(Some(PluginResult::new(true, false))))
        } else if method == methods::SET_RESPONSE_HEADER {
            Ok(SessionAction::SetResponseHeader(data))
        } else if method == methods::REMOVE_RESPONSE_HEADER {
            Self::handle_remove_response_header(data.as_slice(), ctx);
            Ok(SessionAction::Finish(None))
        } else if method == methods::SET_RESPONSE_STATUS {
            Self::handle_set_response_status(data.as_slice(), ctx);
            Ok(SessionAction::Finish(None))
        } else if method == methods::SET_RESPONSE_FULL_BODY {
            Self::handle_set_response_full_body(data, ctx);
            Ok(SessionAction::Finish(None))
        } else if method == methods::SET_RESPONSE_STREAM_HEADER {
            Ok(SessionAction::StreamHeader)
        } else if method == methods::SET_RESPONSE_STREAM_DATA {
            Ok(SessionAction::StreamData(data))
        } else if method == methods::SET_RESPONSE_STREAM_END {
            Ok(SessionAction::StreamEnd)
        } else if method == methods::READ_RESPONSE_FULL_BODY {
            Ok(SessionAction::Reply(method, Self::response_full_body(ctx, response_body)))
        } else if method == methods::READ_REQUEST_FULL_BODY {
            Ok(SessionAction::ReadRequestFullBody)
        } else if method == methods::READ_REQUEST_HEADER {
            if data.len() == 0 {
                Ok(SessionAction::ReadRequestHeader(None))
            } else {
                Ok(SessionAction::ReadRequestHeader(Some(lossy_string(data.as_slice()))))
            }
        } else if method == methods::READ_REQUEST_HEADERS {
            Ok(SessionAction::ReadRequestHeaders)
        } else if method == methods::READ_REQUEST_URL {
            Ok(SessionAction::ReadRequestUrl)
        } else if method == methods::READ_REQUEST_PATH {
            Ok(SessionAction::ReadRequestPath)
        } else if method == methods::READ_REQUEST_QUERY {
            Ok(SessionAction::ReadRequestQuery)
        } else if method == methods::READ_REQUEST_PARAMS {
            Ok(SessionAction::ReadRequestParams)
        } else if method == methods::READ_REQUEST_HOST {
            Ok(Self::reply_text(method, ctx.host.as_str()))
        } else if method == methods::READ_REQUEST_CLIENT_IP {
            Ok(Self::reply_text(method, ctx.client_ip.as_str()))
        } else if method == methods::READ_REQUEST_METHOD {
            Ok(SessionAction::ReadRequestMethod)
        } else if method == methods::READ_RESPONSE_STATUS {
            let text = u64_to_decimal(ctx.set_response_status as u64);
            Ok(Self::reply_text(method, text.as_str()))
        } else if method == methods::READ_REQUEST_BYTES {
            Ok(SessionAction::ReadRequestBytes)
        } else if method == methods::READ_RESPONSE_BYTES {
            let extra: usize = match response_body {
                Some(b) => b.len(),
                None => 0,
            };
            let total = ctx.set_response_body.len() as i64 + extra as i64;
            let text = i64_to_decimal(total);
            Ok(Self::reply_text(method, text.as_str()))
        } else if method == methods::READ_REQUEST_TIMESTAMP {
            let text = u64_to_decimal(ctx.request_timestamp);
            Ok(Self::reply_text(method, text.as_str()))
        } else if method == methods::READ_RESPONSE_HEADERS {
            Ok(SessionAction::ReadResponseHeaders)
        } else if method == methods::READ_RESPONSE_DURATION {
            let now = now_unix_millis();
            let duration = now.saturating_sub(ctx.request_timestamp);
            let text = u64_to_decimal(duration);
            assert(text@ == duration_text(now, ctx.request_timestamp));
            Ok(Self::reply_text(method, text.as_str()))
        } else if method == methods::READ_RESPONSE_ERROR {
            let text = match &ctx.error_message {
                Some(e) => e.clone(),
                None => String::new(),
            };
            Ok(Self::reply_text(method, text.as_str()))
        } else if method == methods::WEBSOCKET_UPGRADE {
            Ok(SessionAction::WebSocketUpgrade)
        } else if method == methods::WEBSOCKET_SEND_TEXT {
            Ok(SessionAction::WebSocketSend(Self::build_ws_frame(0x1, data.as_slice())))
        } else if method == methods::WEBSOCKET_SEND_BINARY {
            Ok(SessionAction::WebSocketSend(Self::build_ws_frame(0x2, data.as_slice())))
        } else if method == methods::WEBSOCKET_CLOSE {
            let empty: Vec<u8> = Vec::new();
            Ok(SessionAction::WebSocketClose(Self::build_ws_frame(0x8, empty.as_slice())))
        } else if method == methods::WEBSOCKET_JOIN_ROOM || method == methods::WEBSOCKET_LEAVE_ROOM {
            let room = lossy_string(data.as_slice());
            if room.as_str().is_empty() {
                Ok(SessionAction::Finish(None))
            } else if method == methods::WEBSOCKET_JOIN_ROOM {
                Ok(SessionAction::JoinRoom(room))
            } else {
                Ok(SessionAction::LeaveRoom(room))
            }
        } else if method == methods::WEBSOCKET_BROADCAST_ROOM_TEXT || method == methods::WEBSOCKET_BROADCAST_ROOM_BINARY {
            match Self::split_room_payload(data.as_slice()) {
                Some((room, payload)) => {
                    if method == methods::WEBSOCKET_BROADCAST_ROOM_TEXT {
                        Ok(SessionAction::BroadcastText(room, lossy_string(payload.as_slice())))
                    } else {
                        Ok(SessionAction::BroadcastBinary(room, payload))
                    }
                },
                None => Ok(SessionAction::Finish(None)),
            }
        } else {
            let msg = String::from_str("Invalid method: ").concat(u64_to_decimal(method as u64).as_str());
            proof {
                reveal_strlit("Invalid method: ");
            }
            Err(NylonError::ConfigError(msg))
        }
    }
}


/// A frame read from the client.
pub struct ClientFrame {
    pub fin: bool,
    pub opcode: u8,
    pub payload: Vec<u8>,
    /// How many bytes of the buffer the frame took.
    pub consumed: usize,
}

/// The payload length and where the payload (or its mask) starts, from byte 1 on.
pub open spec fn frame_length(buf: Seq<u8>) -> Option<(nat, nat)> {
    let len7 = buf[1] % 128;
    if len7 == 126 {
        if buf.len() < 4 { None } else { Some(((buf[2] as nat) * 256 + buf[3] as nat, 4nat)) }
    } else if len7 == 127 {
        if buf.len() < 10 {
            None
        } else {
            let v = ((((((buf[2] as nat * 256 + buf[3] as nat) * 256 + buf[4] as nat) * 256 + buf[5] as nat) * 256
                + buf[6] as nat) * 256 + buf[7] as nat) * 256 + buf[8] as nat) * 256 + buf[9] as nat;
            Some((v, 10nat))
        }
    } else {
        Some((len7 as nat, 2nat))
    }
}

/// The payload bytes, unmasked with `key` when the frame is masked.
pub open spec fn unmasked(data: Seq<u8>, masked: bool, key: Seq<u8>) -> Seq<u8> {
    if masked { Seq::new(data.len(), |i: int| data[i] ^ key[i % 4]) } else { data }
}

/// The first complete frame at the start of `buf` (RFC 6455, section 5.2):
/// whether it is final, its opcode, its payload unmasked, and its length in bytes.
/// `None` while the buffer holds no complete frame.
pub open spec fn spec_parse_frame(buf: Seq<u8>) -> Option<(bool, u8, Seq<u8>, nat)> {
    if buf.len() < 2 {
        None
    } else {
        let fin = buf[0] >= 128;
        let opcode = (buf[0] % 16) as u8;
        let masked = buf[1] >= 128;
        match frame_length(buf) {
            None => None,
            Some((plen, idx)) => {
                let start = if masked { idx + 4 } else { idx };
                if buf.len() < start + plen {
                    None
                } else {
                    let key = if masked { buf.subrange(idx as int, (idx + 4) as int) } else { Seq::empty() };
                    let data = buf.subrange(start as int, (start + plen) as int);
                    Some((fin, opcode, unmasked(data, masked, key), start + plen))
                }
            },
        }
    }
}

impl SessionHandler {
    /// Reads the first complete frame from the start of `buf`.
    pub fn parse_ws_frame(buf: &Vec<u8>) -> (r: Option<ClientFrame>)
        ensures
            match spec_parse_frame(buf@) {
                None => r.is_none(),
                Some((fin, opcode, payload, consumed)) => r matches Some(f) && f.fin == fin
                    && f.opcode == opcode && f.payload@ == payload && f.consumed == consumed,
            },
    {
        if buf.len() < 2 {
            return None;
        }
        let b0 = buf[0];
        let b1 = buf[1];
        let fin = b0 >= 128;
        let opcode = b0 % 16;
        let masked = b1 >= 128;
        let len7 = b1 % 128;
        let (plen, idx): (u64, usize) = if len7 == 126 {
            if buf.len() < 4 {
                return None;
            }
            ((buf[2] as u64) * 256 + buf[3] as u64, 4)
        } else if len7 == 127 {
            if buf.len() < 10 {
                return None;
            }
            let mut v: u64 = 0;
            let mut k: usize = 2;
            while k < 10
                invariant
                    2 <= k <= 10,
                    buf@.len() >= 10,
                    v as nat == partial_be(buf@, k as int),
                    partial_be(buf@, k as int) < pow256(k as int - 2),
                decreases 10 - k,
            {
                proof {
                    lemma_partial_be_step(buf@, k as int);
                }
                v = v * 256 + buf[k] as u64;
                k = k + 1;
            }
            proof {
                lemma_partial_be_full(buf@);
            }
            (v, 10)
        } else {
            (len7 as u64, 2)
        };
        let start: usize = if masked { idx + 4 } else { idx };
        if (buf.len() as u128) < (start as u128) + (plen as u128) {
            return None;
        }
        assert(plen <= buf@.len());
        let plen_u: usize = plen as usize;
        assert(plen_u == plen);
        let mut payload: Vec<u8> = Vec::new();
        let mut i: usize = 0;
        while i < plen_u
            invariant
                i <= plen_u,
                plen_u == plen,
                start + plen <= buf@.len(),
                start == (if masked { idx + 4 } else { idx as int }),
                masked ==> idx + 4 <= buf@.len(),
                payload@.len() == i,
                forall|x: int| 0 <= x < i ==> #[trigger] payload@[x] == (if masked { buf@[start + x] ^ buf@[idx + x % 4] } else { buf@[start + x] }),
            decreases plen_u - i,
        {
            assert(start + i < buf.len());
            let pos: usize = start + i;
            let byte = buf[pos];
            let b = if masked { byte ^ buf[idx + i % 4] } else { byte };
            payload.push(b);
            i = i + 1;
        }
        proof {
            let key = if masked { buf@.subrange(idx as int, idx + 4) } else { Seq::empty() };
            let data = buf@.subrange(start as int, start + plen);
            assert(payload@ =~= unmasked(data, masked, key));
            assert(frame_length(buf@) == Some((plen as nat, idx as nat)));
        }
        Some(ClientFrame { fin, opcode, payload, consumed: start + plen_u })
    }
}

/// 256 to the power `k`.
pub open spec fn pow256(k: int) -> nat
    decreases k,
{
    if k <= 0 { 1 } else { 256 * pow256(k - 1) }
}

/// The number written by bytes 2..k of `buf`, most significant first.
pub open spec fn partial_be(buf: Seq<u8>, k: int) -> nat
    decreases k,
{
    if k <= 2 { 0 } else { partial_be(buf, k - 1) * 256 + buf[k - 1] as nat }
}

proof fn lemma_partial_be_step(buf: Seq<u8>, k: int)
    requires
        2 <= k < 10,
        k < buf.len(),
        partial_be(buf, k) < pow256(k - 2),
    ensures
        partial_be(buf, k + 1) == partial_be(buf, k) * 256 + buf[k] as nat,
        partial_be(buf, k + 1) < pow256(k - 1),
        partial_be(buf, k) * 256 + buf[k] as nat <= u64::MAX,
{
    assert(pow256(k - 1) == 256 * pow256(k - 2));
    assert(partial_be(buf, k) * 256 + (buf[k] as nat) < pow256(k - 2) * 256) by (nonlinear_arith)
        requires partial_be(buf, k) < pow256(k - 2), (buf[k] as nat) < 256;
    lemma_pow256_bound(k - 1);
}

proof fn lemma_pow256_bound(k: int)
    requires
        0 <= k <= 8,
    ensures
        pow256(k) <= 0x1_0000_0000_0000_0000,
{
    assert(pow256(0) == 1);
    assert(pow256(1) == 0x100);
    assert(pow256(2) == 0x1_0000);
    assert(pow256(3) == 0x100_0000);
    assert(pow256(4) == 0x1_0000_0000);
    assert(pow256(5) == 0x100_0000_0000);
    assert(pow256(6) == 0x1_0000_0000_0000);
    assert(pow256(7) == 0x100_0000_0000_0000);
    assert(pow256(8) == 0x1_0000_0000_0000_0000);
}

proof fn lemma_partial_be_full(buf: Seq<u8>)
    requires
        buf.len() >= 10,
    ensures
        partial_be(buf, 10) == ((((((buf[2] as nat * 256 + buf[3] as nat) * 256 + buf[4] as nat) * 256 + buf[5] as nat) * 256
            + buf[6] as nat) * 256 + buf[7] as nat) * 256 + buf[8] as nat) * 256 + buf[9] as nat,
{
    assert(partial_be(buf, 2) == 0);
    assert(partial_be(buf, 3) == buf[2] as nat);
    assert(partial_be(buf, 4) == partial_be(buf, 3) * 256 + buf[3] as nat);
    assert(partial_be(buf, 5) == partial_be(buf, 4) * 256 + buf[4] as nat);
    assert(partial_be(buf, 6) == partial_be(buf, 5) * 256 + buf[5] as nat);
    assert(partial_be(buf, 7) == partial_be(buf, 6) * 256 + buf[6] as nat);
    assert(partial_be(buf, 8) == partial_be(buf, 7) * 256 + buf[7] as nat);
    assert(partial_be(buf, 9) == partial_be(buf, 8) * 256 + buf[8] as nat);
    assert(partial_be(buf, 10) == partial_be(buf, 9) * 256 + buf[9] as nat);
}

proof fn lemma_long_length(f: Seq<u8>, n: nat)
    requires
        65535 < n < 0x1_0000_0000_0000_0000,
        f.len() >= 10,
        f[1] == 127u8,
        f.subrange(1, 10) == ws_length_bytes(n),
    ensures
        frame_length(f) == Some((n, 10nat)),
{
    let q1 = n / 256;
    let q2 = q1 / 256;
    let q3 = q2 / 256;
    let q4 = q3 / 256;
    let q5 = q4 / 256;
    let q6 = q5 / 256;
    let q7 = q6 / 256;
    let lb = ws_length_bytes(n);
    assert(f[2] == lb[1] && f[3] == lb[2] && f[4] == lb[3] && f[5] == lb[4]);
    assert(f[6] == lb[5] && f[7] == lb[6] && f[8] == lb[7] && f[9] == lb[8]);
    assert(q7 < 256);
    assert(q7 * 256 + q6 % 256 == q6);
    assert(q6 * 256 + q5 % 256 == q5);
    assert(q5 * 256 + q4 % 256 == q4);
    assert(q4 * 256 + q3 % 256 == q3);
    assert(q3 * 256 + q2 % 256 == q2);
    assert(q2 * 256 + q1 % 256 == q1);
    assert(q1 * 256 + n % 256 == n);
}

/// Reading back a frame the proxy built gives the frame: final, the opcode (its
/// low four bits), the payload, and all of its bytes.
#[verifier::rlimit(40)]
pub proof fn law_frame_roundtrip(opcode: u8, payload: Seq<u8>)
    requires
        payload.len() <= u64::MAX,
    ensures
        spec_parse_frame(ws_frame(opcode, payload)) == Some((true, (opcode % 16) as u8, payload, ws_frame(opcode, payload).len())),
{
    let n = payload.len();
    let f = ws_frame(opcode, payload);
    let lb = ws_length_bytes(n);
    let h = lb.len();
    assert(f == seq![(128 + opcode % 16) as u8] + lb + payload);
    assert(f[0] == (128 + opcode % 16) as u8);
    assert(f.subrange(1, 1 + h as int) =~= lb);
    assert(f.subrange(1 + h as int, f.len() as int) =~= payload);
    if n <= 125 {
        assert(f[1] == lb[0]);
        assert(frame_length(f) == Some((n, 2nat)));
    } else if n <= 65535 {
        assert(f[1] == lb[0] && f[2] == lb[1] && f[3] == lb[2]);
        assert((n / 256) * 256 + n % 256 == n);
        assert(frame_length(f) == Some((n, 4nat)));
    } else {
        assert(f[1] == lb[0]);
        lemma_long_length(f, n);
    }
}

/// `data` masked with `key`: each byte xored with the key byte at its position modulo 4.
pub open spec fn xor_mask(data: Seq<u8>, key: Seq<u8>) -> Seq<u8> {
    Seq::new(data.len(), |i: int| data[i] ^ key[i % 4])
}

/// A final frame as a client sends it (RFC 6455, section 5.2): the mask bit set,
/// the four bytes of `key`, and the payload masked with them.
pub open spec fn client_frame(opcode: u8, key: Seq<u8>, payload: Seq<u8>) -> Seq<u8> {
    let lb = ws_length_bytes(payload.len());
    seq![(128 + opcode % 16) as u8, (lb[0] + 128) as u8] + lb.drop_first() + key + xor_mask(payload, key)
}

/// Reading a client's masked frame gives its payload unmasked: final, the
/// opcode (its low four bits), the payload as the client meant it, and all of
/// the frame's bytes.
pub proof fn law_client_frame_unmasked(opcode: u8, key: Seq<u8>, payload: Seq<u8>)
    requires
        key.len() == 4,
        payload.len() <= u64::MAX,
    ensures
        spec_parse_frame(client_frame(opcode, key, payload))
            == Some((true, (opcode % 16) as u8, payload, client_frame(opcode, key, payload).len())),
{
    let n = payload.len();
    let f = client_frame(opcode, key, payload);
    let lb = ws_length_bytes(n);
    let h = lb.len();
    assert(lb[0] < 128);
    assert(f[0] == (128 + opcode % 16) as u8);
    assert(f[1] == (lb[0] + 128) as u8);
    assert(f[1] >= 128);
    assert(f[1] % 128 == lb[0]);
    assert(f.subrange(1 + h as int, 5 + h as int) =~= key);
    let m = xor_mask(payload, key);
    assert(f.subrange(5 + h as int, f.len() as int) =~= m);
    assert forall|i: int| 0 <= i < n implies #[trigger] (m[i] ^ key[i % 4]) == payload[i] by {
        let p = payload[i];
        let k = key[i % 4];
        assert((p ^ k) ^ k == p) by (bit_vector);
    }
    assert(unmasked(m, true, key) =~= payload);
    if n <= 125 {
        assert(frame_length(f) == Some((n, 2nat)));
    } else if n <= 65535 {
        assert(f[2] == lb[1] && f[3] == lb[2]);
        assert((n / 256) * 256 + n % 256 == n);
        assert(frame_length(f) == Some((n, 4nat)));
    } else {
        let g = f.update(1, 127u8);
        assert(g.subrange(1, 10) =~= lb);
        lemma_long_length(g, n);
        assert(frame_length(f) == frame_length(g));
    }
}

/// What the proxy does with a frame from the client.
pub enum FrameAction {
    /// Pass the payload to the plugin as an event of this method.
    Forward(u32, Vec<u8>),
    /// Answer with this close frame, tell the plugin the socket closed, and end.
    Close(Vec<u8>),
    /// Answer with this pong frame.
    Pong(Vec<u8>),
    /// Nothing.
    Ignore,
}

impl SessionHandler {
    /// What a client frame calls for: text and binary messages go to the plugin,
    /// a close is echoed and ends the session, a ping is answered with a pong.
    pub fn client_frame_action(opcode: u8, payload: Vec<u8>) -> (r: FrameAction)
        ensures
            opcode == 1 ==> (r matches FrameAction::Forward(m, p) && m == methods::WEBSOCKET_ON_MESSAGE_TEXT && p@ == payload@),
            opcode == 2 ==> (r matches FrameAction::Forward(m, p) && m == methods::WEBSOCKET_ON_MESSAGE_BINARY && p@ == payload@),
            opcode == 8 ==> (r matches FrameAction::Close(f) && f@ == ws_frame(8, payload@)),
            opcode == 9 ==> (r matches FrameAction::Pong(f) && f@ == ws_frame(10, payload@)),
            opcode != 1 && opcode != 2 && opcode != 8 && opcode != 9 ==> r is Ignore,
    {
        if opcode == 1 {
            FrameAction::Forward(methods::WEBSOCKET_ON_MESSAGE_TEXT, payload)
        } else if opcode == 2 {
            FrameAction::Forward(methods::WEBSOCKET_ON_MESSAGE_BINARY, payload)
        } else if opcode == 8 {
            FrameAction::Close(Self::build_ws_frame(0x8, payload.as_slice()))
        } else if opcode == 9 {
            FrameAction::Pong(Self::build_ws_frame(0xA, payload.as_slice()))
        } else {
            FrameAction::Ignore
        }
    }
}

} // verus!
