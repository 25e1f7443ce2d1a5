use nylon::error::NylonError;
use nylon::messaging::protocol::{PluginResponse, ResponseAction, PROTOCOL_VERSION};
use nylon::plugin::cache::{cache_stats, clear_cache, headers_cache_key, name_less, HeadersCache, CACHE_SIZE_LIMIT};
use nylon::plugin::constants as methods;
use nylon::plugin::header_modifier::{
    request_header_ops, response_header_changes, to_ascii_lowercase, HeaderChange, HeaderOp, HeaderPayload,
};
use nylon::plugin::manager::{middleware_target, MiddlewareTarget, PluginManager};
use nylon::plugin::messaging::{
    build_phase_policies, map_messaging_error, map_protocol_error, merge_retry_policy, phase_subject,
    register_plugin, session_id_for, session_key, session_outcome, session_request, MessagingPlugin,
    MessagingRegistry, SessionIds,
};
use nylon::plugin::messaging_methods::{is_method_supported, process_messaging_method};
use nylon::plugin::session::{FrameAction, SessionAction, SessionHandler, UpgradeReply};
use nylon::plugin::transport_handler::{phase_start_event, session_step, PluginLoopResult, SessionStep, TransportSessionHandler};
use nylon::plugin::types::{BuiltinPlugin, PluginResult};
use nylon::types::context::NylonContext;
use nylon::types::plugins::{
    MessagingConfig, MessagingOnError, MessagingPhase, MessagingPhaseConfig, OverflowPolicy, PluginItem, PluginPhase,
    PluginType, RetryPolicyConfig,
};
use nylon::types::transport::{PluginTransport, TraceMeta, TransportError, TransportEvent, TransportInvoke};

fn ctx() -> NylonContext {
    let mut c = NylonContext::new();
    c.client_ip = "10.1.2.3".to_string();
    c.host = "example.com".to_string();
    c
}

fn config_message(r: Result<SessionAction, NylonError>) -> String {
    match r {
        Err(NylonError::ConfigError(m)) => m,
        Err(e) => panic!("unexpected error {:?}", e),
        Ok(_) => panic!("expected an error"),
    }
}

fn reply(r: Result<SessionAction, NylonError>) -> (u32, Vec<u8>) {
    match r {
        Ok(SessionAction::Reply(m, p)) => (m, p),
        _ => panic!("expected a reply"),
    }
}

#[test]
fn control_methods_finish() {
    let mut c = ctx();
    let none = None;
    match SessionHandler::process_method(methods::NEXT, vec![], &mut c, &none) {
        Ok(SessionAction::Finish(Some(p))) => assert_eq!(p, PluginResult::new(false, false)),
        _ => panic!("next"),
    }
    match SessionHandler::process_method(methods::END, vec![], &mut c, &none) {
        Ok(SessionAction::Finish(Some(p))) => assert!(p.http_end && !p.stream_end),
        _ => panic!("end"),
    }
    assert!(matches!(
        SessionHandler::process_method(methods::GET_PAYLOAD, vec![], &mut c, &none),
        Ok(SessionAction::SendPayload)
    ));
}

#[test]
fn response_overrides_are_recorded() {
    let mut c = ctx();
    let none = None;
    let r = SessionHandler::process_method(methods::SET_RESPONSE_STATUS, vec![0x01, 0xF4], &mut c, &none);
    assert!(matches!(r, Ok(SessionAction::Finish(None))));
    assert_eq!(c.set_response_status, 500);
    let r = SessionHandler::process_method(methods::SET_RESPONSE_STATUS, vec![0x01], &mut c, &none);
    assert!(r.is_ok());
    assert_eq!(c.set_response_status, 500);
    SessionHandler::process_method(methods::REMOVE_RESPONSE_HEADER, b"x-powered-by".to_vec(), &mut c, &none).unwrap();
    assert_eq!(c.remove_response_header, vec!["x-powered-by".to_string()]);
    SessionHandler::process_method(methods::SET_RESPONSE_FULL_BODY, b"hello".to_vec(), &mut c, &none).unwrap();
    assert_eq!(c.set_response_body, b"hello".to_vec());
    let upstream = Some(b" world".to_vec());
    let (m, body) = reply(SessionHandler::process_method(methods::READ_RESPONSE_FULL_BODY, vec![], &mut c, &upstream));
    assert_eq!(m, methods::READ_RESPONSE_FULL_BODY);
    assert_eq!(body, b"hello world".to_vec());
    let (_, bytes) = reply(SessionHandler::process_method(methods::READ_RESPONSE_BYTES, vec![], &mut c, &upstream));
    assert_eq!(bytes, b"11".to_vec());
    let (_, status) = reply(SessionHandler::process_method(methods::READ_RESPONSE_STATUS, vec![], &mut c, &none));
    assert_eq!(status, b"500".to_vec());
}

#[test]
fn request_reads_answer_from_state() {
    let mut c = ctx();
    c.request_timestamp = 1700000000123;
    c.error_message = Some("upstream timeout".to_string());
    let none = None;
    assert_eq!(reply(SessionHandler::process_method(methods::READ_REQUEST_HOST, vec![], &mut c, &none)).1, b"example.com".to_vec());
    assert_eq!(reply(SessionHandler::process_method(methods::READ_REQUEST_CLIENT_IP, vec![], &mut c, &none)).1, b"10.1.2.3".to_vec());
    assert_eq!(
        reply(SessionHandler::process_method(methods::READ_REQUEST_TIMESTAMP, vec![], &mut c, &none)).1,
        b"1700000000123".to_vec()
    );
    assert_eq!(
        reply(SessionHandler::process_method(methods::READ_RESPONSE_ERROR, vec![], &mut c, &none)).1,
        b"upstream timeout".to_vec()
    );
    match SessionHandler::process_method(methods::READ_REQUEST_HEADER, b"Host".to_vec(), &mut c, &none) {
        Ok(SessionAction::ReadRequestHeader(Some(k))) => assert_eq!(k, "Host"),
        _ => panic!("header read"),
    }
    assert!(matches!(
        SessionHandler::process_method(methods::READ_REQUEST_HEADER, vec![], &mut c, &none),
        Ok(SessionAction::ReadRequestHeader(None))
    ));
    let (_, d) = reply(SessionHandler::process_method(methods::READ_RESPONSE_DURATION, vec![], &mut c, &none));
    assert!(std::str::from_utf8(&d).unwrap().parse::<u64>().is_ok());
}

#[test]
fn unknown_method_is_refused() {
    let mut c = ctx();
    let none = None;
    assert_eq!(config_message(SessionHandler::process_method(9999, vec![], &mut c, &none)), "Invalid method: 9999");
}

#[test]
fn websocket_methods_build_frames() {
    let mut c = ctx();
    let none = None;
    match SessionHandler::process_method(methods::WEBSOCKET_SEND_TEXT, b"hi".to_vec(), &mut c, &none) {
        Ok(SessionAction::WebSocketSend(f)) => assert_eq!(f, vec![0x81, 2, b'h', b'i']),
        _ => panic!("text frame"),
    }
    match SessionHandler::process_method(methods::WEBSOCKET_CLOSE, vec![], &mut c, &none) {
        Ok(a @ SessionAction::WebSocketClose(_)) => {
            assert_eq!(a.completion(), Some(PluginResult::new(false, true)));
            if let SessionAction::WebSocketClose(f) = a {
                assert_eq!(f, vec![0x88, 0]);
            }
        },
        _ => panic!("close frame"),
    }
    match SessionHandler::process_method(methods::WEBSOCKET_JOIN_ROOM, b"lobby".to_vec(), &mut c, &none) {
        Ok(SessionAction::JoinRoom(r)) => assert_eq!(r, "lobby"),
        _ => panic!("join"),
    }
    assert!(matches!(
        SessionHandler::process_method(methods::WEBSOCKET_LEAVE_ROOM, vec![], &mut c, &none),
        Ok(SessionAction::Finish(None))
    ));
    match SessionHandler::process_method(methods::WEBSOCKET_BROADCAST_ROOM_TEXT, b"lobby\0hello".to_vec(), &mut c, &none) {
        Ok(SessionAction::BroadcastText(r, m)) => {
            assert_eq!(r, "lobby");
            assert_eq!(m, "hello");
        },
        _ => panic!("broadcast"),
    }
    match SessionHandler::process_method(methods::WEBSOCKET_BROADCAST_ROOM_BINARY, b"r\0\x01\x02".to_vec(), &mut c, &none) {
        Ok(SessionAction::BroadcastBinary(r, m)) => {
            assert_eq!(r, "r");
            assert_eq!(m, vec![1, 2]);
        },
        _ => panic!("broadcast binary"),
    }
}

#[test]
fn frame_lengths_use_extended_forms() {
    let small = SessionHandler::build_ws_frame(2, &[7u8; 125]);
    assert_eq!(&small[..2], &[0x82, 125]);
    assert_eq!(small.len(), 127);
    let mid = SessionHandler::build_ws_frame(1, &vec![0u8; 300]);
    assert_eq!(&mid[..4], &[0x81, 126, 1, 44]);
    assert_eq!(mid.len(), 304);
    let big = SessionHandler::build_ws_frame(2, &vec![0u8; 70000]);
    assert_eq!(&big[..10], &[0x82, 127, 0, 0, 0, 0, 0, 1, 0x11, 0x70]);
    assert_eq!(big.len(), 70010);
}

#[test]
fn frames_round_trip_through_the_parser() {
    for n in [0usize, 5, 125, 126, 300, 65535, 65536] {
        let payload: Vec<u8> = (0..n).map(|i| (i % 251) as u8).collect();
        let frame = SessionHandler::build_ws_frame(1, &payload);
        let parsed = SessionHandler::parse_ws_frame(&frame).expect("complete frame");
        assert!(parsed.fin);
        assert_eq!(parsed.opcode, 1);
        assert_eq!(parsed.payload, payload);
        assert_eq!(parsed.consumed, frame.len());
    }
}

#[test]
fn masked_client_frame_is_unmasked() {
    // "Hello" masked with 37 fa 21 3d (RFC 6455, section 5.7).
    let frame = vec![0x81, 0x85, 0x37, 0xfa, 0x21, 0x3d, 0x7f, 0x9f, 0x4d, 0x51, 0x58];
    let f = SessionHandler::parse_ws_frame(&frame).unwrap();
    assert_eq!(f.payload, b"Hello".to_vec());
    assert_eq!(f.consumed, 11);
    assert!(SessionHandler::parse_ws_frame(&frame[..7].to_vec()).is_none());
    assert!(SessionHandler::parse_ws_frame(&vec![0x81]).is_none());
}

#[test]
fn client_frames_are_dispatched() {
    assert!(matches!(
        SessionHandler::client_frame_action(1, b"a".to_vec()),
        FrameAction::Forward(m, p) if m == methods::WEBSOCKET_ON_MESSAGE_TEXT && p == b"a".to_vec()
    ));
    assert!(matches!(
        SessionHandler::client_frame_action(9, b"p".to_vec()),
        FrameAction::Pong(f) if f == vec![0x8A, 1, b'p']
    ));
    assert!(matches!(
        SessionHandler::client_frame_action(8, vec![3, 232]),
        FrameAction::Close(f) if f == vec![0x88, 2, 3, 232]
    ));
    assert!(matches!(SessionHandler::client_frame_action(10, vec![]), FrameAction::Ignore));
}

#[test]
fn handshake_accept_key() {
    assert_eq!(
        SessionHandler::websocket_accept_key("dGhlIHNhbXBsZSBub25jZQ=="),
        "s3pPLMBiTxaQ9kYGzzhZRbK+xOo="
    );
    match SessionHandler::upgrade_reply("") {
        UpgradeReply::Reject { status, body } => {
            assert_eq!(status, 400);
            assert_eq!(body, "Missing Sec-WebSocket-Key");
        },
        _ => panic!("expected a refusal"),
    }
    match SessionHandler::upgrade_reply("dGhlIHNhbXBsZSBub25jZQ==") {
        UpgradeReply::Accept { accept_key } => assert_eq!(accept_key, "s3pPLMBiTxaQ9kYGzzhZRbK+xOo="),
        _ => panic!("expected acceptance"),
    }
}

#[test]
fn room_payload_split() {
    assert_eq!(
        SessionHandler::split_room_payload(b"room\0data"),
        Some(("room".to_string(), b"data".to_vec()))
    );
    assert_eq!(SessionHandler::split_room_payload(b"\0data"), None);
    assert_eq!(SessionHandler::split_room_payload(b"nodata"), None);
    assert_eq!(SessionHandler::split_room_payload(b"r\0"), Some(("r".to_string(), vec![])));
}

#[test]
fn request_url_and_bytes() {
    assert_eq!(SessionHandler::request_url(false, "a.com", "8080", "/x?y=1"), "http://a.com:8080/x?y=1");
    assert_eq!(SessionHandler::request_url(true, "a.com", "443", "/"), "https://a.com/");
    assert_eq!(SessionHandler::request_url(false, "a.com", "", "/p"), "http://a.com/p");
    assert_eq!(SessionHandler::request_bytes_text(Some("42")), "42");
    assert_eq!(SessionHandler::request_bytes_text(Some("x")), "0");
    assert_eq!(SessionHandler::request_bytes_text(None), "0");
    assert_eq!(SessionHandler::connection_id("node-1", 7), "node-1:7");
}

#[test]
fn request_body_accumulates() {
    let mut c = ctx();
    SessionHandler::append_request_body(&mut c, b"ab");
    SessionHandler::append_request_body(&mut c, b"cd");
    assert_eq!(c.request_body, b"abcd".to_vec());
    SessionHandler::set_response_header(&mut c, "x-a".to_string(), "1".to_string());
    assert_eq!(c.add_response_header.get("x-a").map(|s| s.as_str()), Some("1"));
}

#[test]
fn messaging_methods_subset() {
    assert!(is_method_supported(methods::NEXT));
    assert!(is_method_supported(methods::SET_RESPONSE_STREAM_END));
    assert!(!is_method_supported(methods::GET_PAYLOAD));
    let mut c = ctx();
    let inv = |m: u32, d: Vec<u8>| TransportInvoke { method: m, data: d, request_id: None };
    assert!(matches!(process_messaging_method(inv(methods::READ_REQUEST_HOST, vec![]), &mut c), Ok(SessionAction::Finish(None))));
    assert_eq!(
        config_message(process_messaging_method(inv(methods::WEBSOCKET_UPGRADE, vec![]), &mut c)),
        "WebSocket method 300 not supported in messaging transport"
    );
    assert_eq!(config_message(process_messaging_method(inv(42, vec![]), &mut c)), "Invalid method: 42");
    process_messaging_method(inv(methods::SET_RESPONSE_STATUS, vec![0, 201]), &mut c).unwrap();
    assert_eq!(c.set_response_status, 201);
}

struct ScriptedTransport {
    incoming: Vec<Result<Option<TransportInvoke>, TransportError>>,
    sent: Vec<TransportEvent>,
    trace: TraceMeta,
}

impl PluginTransport for ScriptedTransport {
    fn send_event(&mut self, ev: TransportEvent) -> Result<(), TransportError> {
        self.sent.push(ev);
        Ok(())
    }
    fn try_recv_invoke(&mut self, _deadline_ms: u64) -> Result<Option<TransportInvoke>, TransportError> {
        if self.incoming.is_empty() {
            Ok(None)
        } else {
            self.incoming.remove(0)
        }
    }
    fn trace_meta(&self) -> &TraceMeta {
        &self.trace
    }
}

fn invoke(method: u32, id: Option<&str>) -> TransportInvoke {
    TransportInvoke { method, data: vec![], request_id: id.map(|s| s.to_string()) }
}

#[test]
fn duplicate_invokes_are_dropped() {
    let t = ScriptedTransport {
        incoming: vec![
            Ok(Some(invoke(1, Some("a")))),
            Ok(Some(invoke(2, Some("a")))),
            Ok(Some(invoke(3, Some("b")))),
            Ok(Some(invoke(4, None))),
            Ok(Some(invoke(5, None))),
        ],
        sent: vec![],
        trace: TraceMeta::empty(),
    };
    let mut h = TransportSessionHandler::new(t);
    h.start_phase(1).unwrap();
    let mut got = vec![];
    loop {
        match h.process_loop(10).unwrap() {
            PluginLoopResult::Invoke(inv) => got.push(inv.method),
            PluginLoopResult::Timeout => break,
        }
    }
    assert_eq!(got, vec![1, 3, 4, 5]);
    assert_eq!(h.transport().sent.len(), 1);
    assert_eq!(h.transport().sent[0].phase, 1);
    assert_eq!(h.transport().sent[0].method, 0);
    let e = phase_start_event(3);
    assert_eq!((e.phase, e.method, e.data.len()), (3, 0, 0));
    assert!(h.accept_invoke(invoke(9, Some("b"))).is_none());
    assert!(h.accept_invoke(invoke(9, Some("c"))).is_some());
}

#[test]
fn transport_errors_pass_through() {
    let t = ScriptedTransport {
        incoming: vec![Err(TransportError { message: "closed".to_string() })],
        sent: vec![],
        trace: TraceMeta::empty(),
    };
    let mut h = TransportSessionHandler::new(t);
    match h.process_loop(10) {
        Err(e) => assert_eq!(e.message, "closed"),
        Ok(_) => panic!("expected the transport error"),
    }
}

#[test]
fn builtin_plugins_are_recognised() {
    assert_eq!(PluginManager::try_builtin("RequestHeaderModifier"), Some(BuiltinPlugin::RequestHeaderModifier));
    assert_eq!(PluginManager::try_builtin("ResponseHeaderModifier"), Some(BuiltinPlugin::ResponseHeaderModifier));
    assert_eq!(PluginManager::try_builtin("Other"), None);
    assert!(PluginManager::is_request_filter("RequestHeaderModifier"));
    assert!(!PluginManager::is_response_filter("RequestHeaderModifier"));
    assert_eq!(
        middleware_target(Some("ResponseHeaderModifier"), Some("x")),
        MiddlewareTarget::Builtin(BuiltinPlugin::ResponseHeaderModifier)
    );
    assert_eq!(middleware_target(Some("auth"), Some("check")), MiddlewareTarget::Session);
    assert_eq!(middleware_target(Some("auth"), None), MiddlewareTarget::Skip);
    assert_eq!(middleware_target(None, Some("x")), MiddlewareTarget::Skip);
}

#[test]
fn header_modifiers() {
    assert_eq!(to_ascii_lowercase("X-Forwarded-For"), "x-forwarded-for");
    let payload = HeaderPayload {
        remove: Some(vec!["X-Old".to_string()]),
        set: Some(vec![HeaderChange { name: "X-New".to_string(), value: "1".to_string() }]),
    };
    let ops: Vec<String> = request_header_ops(&payload)
        .into_iter()
        .map(|op| match op {
            HeaderOp::Remove(n) => format!("-{}", n),
            HeaderOp::Append(n, v) => format!("+{}={}", n, v),
        })
        .collect();
    assert_eq!(ops, vec!["-X-New".to_string(), "+x-new=1".to_string(), "-x-old".to_string()]);
    let mut c = ctx();
    response_header_changes(&mut c, &payload);
    assert_eq!(c.add_response_header.get("X-New").map(|s| s.as_str()), Some("1"));
    assert_eq!(c.remove_response_header, vec!["X-Old".to_string()]);
}

fn plugin(name: &str, messaging: Option<&str>) -> PluginItem {
    PluginItem {
        name: name.to_string(),
        plugin_type: PluginType::Messaging,
        file: None,
        entry: None,
        config: None,
        messaging: messaging.map(|s| s.to_string()),
        group: None,
        max_inflight: None,
        overflow_policy: None,
        per_phase: None,
    }
}

fn messaging_config(name: &str, servers: Vec<&str>) -> MessagingConfig {
    MessagingConfig {
        name: name.to_string(),
        servers: servers.into_iter().map(|s| s.to_string()).collect(),
        subject_prefix: Some("prod".to_string()),
        request_timeout_ms: Some(750),
        max_inflight: Some(8),
        overflow_policy: Some(OverflowPolicy::Reject),
        retry: Some(RetryPolicyConfig { max: Some(3), backoff_ms_initial: Some(20), backoff_ms_max: None }),
        tls: None,
        auth: None,
        default_headers: Some(vec![("x-a".to_string(), "1".to_string()), ("x-a".to_string(), "2".to_string())]),
    }
}

#[test]
fn messaging_plugin_settings() {
    let mut p = plugin("auth", Some("bus"));
    p.group = Some("  ".to_string());
    p.max_inflight = Some(2);
    p.per_phase = Some(vec![
        (
            MessagingPhase::RequestFilter,
            MessagingPhaseConfig { timeout_ms: Some(100), on_error: None, retry: None },
        ),
        (
            MessagingPhase::RequestFilter,
            MessagingPhaseConfig {
                timeout_ms: Some(200),
                on_error: Some(MessagingOnError::End),
                retry: Some(RetryPolicyConfig { max: Some(0), backoff_ms_initial: None, backoff_ms_max: Some(900) }),
            },
        ),
    ]);
    let m = MessagingPlugin::new(&p, &messaging_config("bus", vec!["nats://a:4222"])).unwrap();
    assert_eq!(m.plugin_name(), "auth");
    assert_eq!(m.queue_group(), "default");
    assert_eq!(m.config_name(), "bus");
    let o = m.options();
    assert_eq!(o.request_timeout_ms, 750);
    assert_eq!(o.max_inflight, 2);
    assert_eq!(o.overflow_policy, OverflowPolicy::Reject);
    assert_eq!((o.retry_policy.max_attempts, o.retry_policy.backoff_initial_ms, o.retry_policy.backoff_max_ms), (3, 20, 250));
    assert_eq!(o.default_headers, vec![("x-a".to_string(), "2".to_string())]);
    assert_eq!(m.per_phase().len(), 1);
    let (phase, policy) = m.per_phase()[0];
    assert_eq!(phase, MessagingPhase::RequestFilter);
    assert_eq!(policy.timeout_ms, Some(200));
    assert_eq!(policy.on_error, MessagingOnError::End);
    assert_eq!((policy.retry.max_attempts, policy.retry.backoff_initial_ms, policy.retry.backoff_max_ms), (3, 20, 900));
    match MessagingPlugin::new(&p, &messaging_config("bus", vec![])) {
        Err(NylonError::ConfigError(m)) => assert_eq!(m, "Messaging config 'bus' must specify at least one server"),
        _ => panic!("expected an error"),
    }
}

#[test]
fn retry_merging() {
    let base = RetryPolicyConfig { max: Some(4), backoff_ms_initial: None, backoff_ms_max: Some(1000) };
    let over = RetryPolicyConfig { max: None, backoff_ms_initial: Some(5), backoff_ms_max: Some(0) };
    let r = merge_retry_policy(Some(&base), Some(&over));
    assert_eq!((r.max_attempts, r.backoff_initial_ms, r.backoff_max_ms), (4, 5, 1000));
    let d = merge_retry_policy(None, None);
    assert_eq!((d.max_attempts, d.backoff_initial_ms, d.backoff_max_ms), (1, 50, 250));
    assert!(build_phase_policies(None, None).is_empty());
    let phases = vec![(MessagingPhase::Logging, MessagingPhaseConfig { timeout_ms: None, on_error: None, retry: None })];
    let p = build_phase_policies(Some(&phases), Some(&base));
    assert_eq!(p[0].1.on_error, MessagingOnError::Retry);
    assert_eq!(p[0].1.retry.max_attempts, 4);
}

#[test]
fn plugin_registration() {
    let mut reg = MessagingRegistry::new();
    let configs = vec![messaging_config("bus", vec!["nats://a:4222"]), messaging_config("empty", vec![])];
    let err = |r: Result<(), NylonError>| match r {
        Err(NylonError::ConfigError(m)) => m,
        _ => panic!("expected an error"),
    };
    assert_eq!(
        err(register_plugin(&plugin("p", None), Some(&configs), &mut reg)),
        "Messaging plugin p must reference a messaging config"
    );
    assert_eq!(
        err(register_plugin(&plugin("p", Some("bus")), None, &mut reg)),
        "Messaging configuration store not initialized. Define `messaging:` in the config before plugins."
    );
    assert_eq!(
        err(register_plugin(&plugin("p", Some("nope")), Some(&configs), &mut reg)),
        "Messaging config 'nope' referenced by plugin p not found"
    );
    assert_eq!(
        err(register_plugin(&plugin("p", Some("empty")), Some(&configs), &mut reg)),
        "Messaging config 'empty' must specify at least one server"
    );
    assert!(register_plugin(&plugin("p", Some(" bus ")), Some(&configs), &mut reg).is_ok());
}

#[test]
fn sessions_and_subjects() {
    assert_eq!(phase_subject("auth", PluginPhase::RequestFilter), "nylon.plugin.auth.request_filter");
    assert_eq!(phase_subject("auth", PluginPhase::Logging), "nylon.plugin.auth.logging");
    assert_eq!(session_key("auth", "check"), "auth-check");
    let mut c = ctx();
    let mut ids = SessionIds::new();
    let a = session_id_for(&mut c, &mut ids, "auth", "check");
    let b = session_id_for(&mut c, &mut ids, "auth", "check");
    let d = session_id_for(&mut c, &mut ids, "auth", "other");
    assert_eq!((a, b, d), (1, 1, 2));
    let r = session_request(77, 5, PluginPhase::ResponseFilter, 123);
    assert_eq!((r.version, r.request_id, r.session_id, r.phase, r.method, r.timestamp), (PROTOCOL_VERSION, 77, 5, 2, 0, 123));
    assert!(r.data.is_empty() && r.headers.is_none());
}

fn response(action: ResponseAction, error: Option<&str>) -> PluginResponse {
    PluginResponse {
        version: 1,
        request_id: 1,
        session_id: 1,
        method: None,
        action,
        data: vec![],
        error: error.map(|s| s.to_string()),
        headers: None,
    }
}

#[test]
fn plugin_answers_and_errors() {
    assert_eq!(session_outcome(&response(ResponseAction::Next, None)).unwrap(), PluginResult::new(false, false));
    assert_eq!(session_outcome(&response(ResponseAction::End, None)).unwrap(), PluginResult::new(true, false));
    match session_outcome(&response(ResponseAction::Error, None)) {
        Err(NylonError::RuntimeError(m)) => assert_eq!(m, "messaging plugin returned error"),
        _ => panic!("expected an error"),
    }
    match session_outcome(&response(ResponseAction::Error, Some("denied"))) {
        Err(NylonError::RuntimeError(m)) => assert_eq!(m, "denied"),
        _ => panic!("expected an error"),
    }
    match map_messaging_error("auth", "timed out") {
        NylonError::RuntimeError(m) => assert_eq!(m, "Messaging plugin 'auth' error: timed out"),
        _ => panic!(),
    }
    match map_protocol_error("auth", "bad frame") {
        NylonError::RuntimeError(m) => assert_eq!(m, "Messaging plugin 'auth' protocol error: bad frame"),
        _ => panic!(),
    }
}

fn header_list(v: Vec<(&str, &str)>) -> Vec<(String, String)> {
    v.into_iter().map(|(a, b)| (a.to_string(), b.to_string())).collect()
}

/// Stand-in for the encoding of a header list (the plugin SDK's schema).
fn encode(headers: &[(String, String)]) -> Vec<u8> {
    let mut out = Vec::new();
    for (k, v) in headers {
        out.extend_from_slice(k.as_bytes());
        out.push(b'=');
        out.extend_from_slice(v.as_bytes());
        out.push(b';');
    }
    out
}

fn build_headers_flatbuffer(cache: &mut HeadersCache, headers: &Vec<(String, String)>, now: u64) -> Vec<u8> {
    nylon::plugin::cache::build_headers_flatbuffer(cache, headers, now, |h: &Vec<(String, String)>| encode(h))
}

#[test]
fn test_cache_basic() {
    let mut cache = HeadersCache::new();
    clear_cache(&mut cache);
    let headers = header_list(vec![("content-type", "application/json"), ("x-custom", "value")]);
    let data1 = build_headers_flatbuffer(&mut cache, &headers, 0);
    let data2 = build_headers_flatbuffer(&mut cache, &headers, 1);
    assert_eq!(data1, data2);
    let (size, _) = cache_stats(&cache);
    assert_eq!(size, 1);
}

#[test]
fn test_cache_order_independence() {
    let mut cache = HeadersCache::new();
    clear_cache(&mut cache);
    let headers1 = header_list(vec![("a", "1"), ("b", "2")]);
    let headers2 = header_list(vec![("b", "2"), ("a", "1")]);
    let data1 = build_headers_flatbuffer(&mut cache, &headers1, 0);
    let data2 = build_headers_flatbuffer(&mut cache, &headers2, 0);
    assert_eq!(data1, data2);
    let (size, _) = cache_stats(&cache);
    assert_eq!(size, 1);
}

#[test]
fn cache_key_is_a_stable_sort_by_name() {
    let h = header_list(vec![("b", "1"), ("a", "2"), ("b", "0"), ("A", "x"), ("ab", "y")]);
    assert_eq!(
        headers_cache_key(&h),
        header_list(vec![("A", "x"), ("a", "2"), ("ab", "y"), ("b", "1"), ("b", "0")])
    );
    let mut expected = h.clone();
    expected.sort_by(|x, y| x.0.cmp(&y.0));
    assert_eq!(headers_cache_key(&h), expected);
    assert!(name_less("é", "z") == ("é" < "z"));
    assert!(name_less("", "a") && !name_less("a", "") && !name_less("a", "a"));
}

#[test]
fn cache_entries_expire_and_stale_ones_are_dropped_when_full() {
    let mut cache = HeadersCache::new();
    let key = headers_cache_key(&header_list(vec![("k", "v")]));
    cache.put(key.clone(), vec![1], 100);
    assert_eq!(cache.get_fresh(&key, 399), Some(vec![1]));
    assert_eq!(cache.get_fresh(&key, 400), None);
    assert_eq!(cache.get_fresh(&key, 50), Some(vec![1]));
    for i in 0..(CACHE_SIZE_LIMIT - 1) {
        cache.put(header_list(vec![("n", &i.to_string())]), vec![0], 1000);
    }
    assert_eq!(cache.len(), CACHE_SIZE_LIMIT);
    cache.put(header_list(vec![("new", "1")]), vec![2], 1100);
    assert_eq!(cache.len(), CACHE_SIZE_LIMIT);
    assert_eq!(cache.get_fresh(&key, 1100), None);
    cache.put(header_list(vec![("newer", "1")]), vec![3], 1400);
    let (size, capacity) = cache_stats(&cache);
    assert_eq!(size, 1);
    assert!(capacity >= size);
    clear_cache(&mut cache);
    assert_eq!(cache.len(), 0);
}

#[test]
fn stale_header_encodings_are_made_again() {
    let mut cache = HeadersCache::new();
    let headers = header_list(vec![("a", "1")]);
    let calls = std::cell::Cell::new(0u32);
    let enc = |h: &Vec<(String, String)>| {
        calls.set(calls.get() + 1);
        encode(h)
    };
    let first = nylon::plugin::cache::build_headers_flatbuffer(&mut cache, &headers, 0, &enc);
    let again = nylon::plugin::cache::build_headers_flatbuffer(&mut cache, &headers, 299, &enc);
    assert_eq!(first, again);
    assert_eq!(calls.get(), 1);
    let later = nylon::plugin::cache::build_headers_flatbuffer(&mut cache, &headers, 300, &enc);
    assert_eq!(later, first);
    assert_eq!(calls.get(), 2);
}

#[test]
fn session_steps() {
    match session_step(PluginLoopResult::Timeout) {
        SessionStep::Stop(p) => assert!(!p.http_end && !p.stream_end),
        SessionStep::Handle(_) => panic!("nothing to handle"),
    }
    match session_step(PluginLoopResult::Invoke(invoke(7, Some("x")))) {
        SessionStep::Handle(inv) => assert_eq!(inv.method, 7),
        SessionStep::Stop(_) => panic!("an invoke is handled"),
    }
}
