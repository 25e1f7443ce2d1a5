use nylon::error::NylonError;
use nylon::store::lb::{backend_plan, http_addresses, parse_seconds, plan_algorithm, plan_services, BackendDirectory};
use nylon::store::routes::{count_route_params, 
    build_patterns, extract_match_path, host_without_port, parsed_middleware, process_route_matcher, RouteTable,
};
use nylon::store::tls::{acme_settings, custom_cert_files, TlsRegistry, TlsStore};
use nylon::store::websockets::{adapter_choice, AdapterChoice, LocalSenders, MemoryAdapter};
use nylon::store::{get, insert, GlobalStore, StoredValue};
use nylon::text_map::TextMap;
use nylon::tls::certificate::CertificateInfo;
use nylon::types::json::JsonValue;
use nylon::types::route::{MiddlewareItem, PathConfig, RouteConfig, RouteMatcher, ServiceRef};
use nylon::types::services::{Algorithm, Endpoint, HealthCheck, ServiceItem, ServiceType};
use nylon::types::tls::{AcmeConfig, TlsConfig, TlsKind};
use nylon::types::websocket::{
    AdapterType, RedisAdapterConfig, WebSocketAdapterConfig, WebSocketConnection, WebSocketEvent, WebSocketMessage,
};

fn service(name: &str, kind: ServiceType, eps: Option<Vec<Endpoint>>) -> ServiceItem {
    ServiceItem {
        name: name.to_string(),
        service_type: kind,
        algorithm: Some(Algorithm::RoundRobin),
        endpoints: eps,
        health_check: None,
        plugin: None,
        static_conf: None,
    }
}

fn path(p: JsonValue, svc: &str, methods: Option<Vec<&str>>) -> PathConfig {
    PathConfig {
        path: p,
        service: ServiceRef { name: svc.to_string(), rewrite: None },
        middleware: None,
        methods: methods.map(|m| m.into_iter().map(|s| s.to_string()).collect()),
    }
}

fn route(name: &str, kind: &str, value: &str, paths: Vec<PathConfig>) -> RouteConfig {
    RouteConfig {
        route: RouteMatcher { kind: kind.to_string(), value: value.to_string() },
        name: name.to_string(),
        tls: None,
        middleware: None,
        paths,
    }
}

fn s(v: &str) -> JsonValue {
    JsonValue::Str(v.to_string())
}

fn route_error(r: Result<RouteTable, NylonError>) -> String {
    match r {
        Err(NylonError::ConfigError(m)) => m,
        Err(e) => panic!("unexpected error {:?}", e),
        Ok(_) => panic!("expected an error"),
    }
}

#[test]
fn global_store_read_after_write() {
    let mut store = GlobalStore::new();
    assert!(get(&store, "k").is_none());
    insert(&mut store, "k", StoredValue::Text("v1".to_string()));
    insert(&mut store, "other", StoredValue::Text("o".to_string()));
    insert(&mut store, "k", StoredValue::Text("v2".to_string()));
    match get(&store, "k") {
        Some(StoredValue::Text(t)) => assert_eq!(t, "v2"),
        _ => panic!("expected the last write"),
    }
    match store.get("other") {
        Some(StoredValue::Text(t)) => assert_eq!(t, "o"),
        _ => panic!("other key changed"),
    }
}

#[test]
fn text_map_basics() {
    let mut m: TextMap<u32> = TextMap::new();
    m.insert("a".to_string(), 1);
    m.insert("b".to_string(), 2);
    m.insert("a".to_string(), 3);
    assert_eq!(m.len(), 2);
    assert_eq!(m.get("a"), Some(&3));
    assert!(m.contains_key("b"));
    let mut keys = m.keys();
    keys.sort();
    assert_eq!(keys, vec!["a".to_string(), "b".to_string()]);
    assert_eq!(m.remove("a"), Some(3));
    assert_eq!(m.remove("a"), None);
    m.clear();
    assert_eq!(m.len(), 0);
}

#[test]
fn routes_by_host_and_header() {
    let services = vec![
        service("api", ServiceType::Http, Some(vec![Endpoint { ip: "127.0.0.1".to_string(), port: 3000, weight: None }])),
        service("admin", ServiceType::Plugin, None),
    ];
    let routes = vec![
        route(
            "main",
            "host",
            "a.com|b.com",
            vec![
                path(s("/users/{id}"), "api", None),
                path(JsonValue::Array(vec![s("/admin"), s("/admin/{*rest}")]), "admin", Some(vec!["POST"])),
            ],
        ),
        route("beta", "header", "beta", vec![path(s("/{*all}"), "admin", None)]),
    ];
    let table = RouteTable::store(&routes, &services, &vec![]).expect("routes");
    let (svc, params) = table.find_route(None, "b.com", "/users/42", "GET").expect("match");
    assert_eq!(svc.service, "api");
    assert_eq!(svc.service_type, ServiceType::Http);
    assert_eq!(params, vec![("id".to_string(), "42".to_string())]);

    let (svc, params) = table.find_route(None, "a.com", "/admin/x/y", "POST").expect("method route");
    assert_eq!(svc.service, "admin");
    assert_eq!(params, vec![("rest".to_string(), "x/y".to_string())]);
    match table.find_route(None, "a.com", "/admin", "GET") {
        Err(NylonError::RouteNotFound(m)) => assert_eq!(m, "No route matched for method: GET, path: /admin"),
        _ => panic!("GET is not registered for /admin"),
    }

    let (svc, _) = table.find_route(Some("beta"), "a.com", "/users/42", "GET").expect("header route");
    assert_eq!(svc.service, "admin");
    let (svc, _) = table.find_route(Some("gamma"), "a.com", "/users/1", "GET").expect("host fallback");
    assert_eq!(svc.service, "api");
    match table.find_route(None, "c.com", "/", "GET") {
        Err(NylonError::RouteNotFound(m)) => assert_eq!(m, "No route matched for host: c.com, method: GET, path: /"),
        _ => panic!("unknown host"),
    }
    match table.find_matching_route("nope", "/", "GET") {
        Err(NylonError::RouteNotFound(m)) => assert_eq!(m, "Route map missing for given name"),
        _ => panic!("unknown route"),
    }
}

#[test]
fn route_table_errors() {
    let services = vec![service("api", ServiceType::Http, None)];
    let bad_kind = vec![route("r", "cookie", "x", vec![])];
    assert_eq!(route_error(RouteTable::store(&bad_kind, &services, &vec![])), "Invalid route kind: cookie");
    let missing = vec![route("r", "host", "a.com", vec![path(s("/"), "ghost", None)])];
    assert_eq!(route_error(RouteTable::store(&missing, &services, &vec![])), "Service ghost not found");
    let bad_path = vec![route("r", "host", "a.com", vec![path(JsonValue::Number("7".to_string()), "api", None)])];
    assert_eq!(route_error(RouteTable::store(&bad_path, &services, &vec![])), "Invalid path type: 7");
    let conflict = vec![route("r", "host", "a.com", vec![path(s("/x"), "api", None), path(s("/x"), "api", None)])];
    assert!(route_error(RouteTable::store(&conflict, &services, &vec![])).starts_with("Failed to register route: "));
}

#[test]
fn route_helpers() {
    assert_eq!(
        build_patterns(&Some(vec!["GET".to_string(), "POST".to_string()]), &vec!["/a".to_string(), "/b".to_string()]),
        vec!["/GET/a".to_string(), "/GET/b".to_string(), "/POST/a".to_string(), "/POST/b".to_string()]
    );
    assert_eq!(build_patterns(&None, &vec!["/a".to_string()]), vec!["/a".to_string()]);
    let p = path(JsonValue::Array(vec![s("/x"), JsonValue::Null]), "api", None);
    assert_eq!(extract_match_path(&p).unwrap(), vec!["/x".to_string(), String::new()]);
    assert_eq!(host_without_port("example.com:8443"), "example.com");
    assert_eq!(host_without_port("example.com"), "example.com");
    let mut keys: TextMap<String> = TextMap::new();
    process_route_matcher(&route("r", "host", "a|b", vec![]), &mut keys).unwrap();
    assert_eq!(keys.get("host-a").map(|s| s.as_str()), Some("r"));
    assert_eq!(keys.get("host-b").map(|s| s.as_str()), Some("r"));
}

fn mw(plugin: &str, group: Option<&str>, payload: Option<JsonValue>) -> MiddlewareItem {
    MiddlewareItem {
        group: group.map(|g| g.to_string()),
        plugin: Some(plugin.to_string()),
        request_filter: None,
        response_filter: None,
        response_body_filter: None,
        logging: None,
        payload,
    }
}

#[test]
fn middleware_groups_expand() {
    let groups = vec![(
        "auth".to_string(),
        vec![mw("jwt", None, Some(JsonValue::Object(vec![("sub".to_string(), s("${header(x-user)}"))])))],
    )];
    let items = vec![mw("ignored", Some("auth"), None), mw("log", None, None), mw("x", Some("missing"), None)];
    let parsed = parsed_middleware(&items, &groups);
    assert_eq!(parsed.len(), 2);
    assert_eq!(parsed[0].item.plugin.as_deref(), Some("jwt"));
    assert_eq!(parsed[0].payload_ast.len(), 1);
    assert_eq!(parsed[0].payload_ast[0].0, "sub");
    assert_eq!(parsed[1].item.plugin.as_deref(), Some("log"));
    assert!(parsed[1].payload_ast.is_empty());
}

#[test]
fn durations_and_backend_plans() {
    assert_eq!(parse_seconds("5s"), Some(5));
    assert_eq!(parse_seconds(" 30 "), Some(30));
    assert_eq!(parse_seconds("x"), None);
    assert_eq!(parse_seconds(""), None);
    let mut svc = service(
        "api",
        ServiceType::Http,
        Some(vec![
            Endpoint { ip: "10.0.0.1".to_string(), port: 80, weight: Some(5) },
            Endpoint { ip: "10.0.0.2".to_string(), port: 8080, weight: None },
        ]),
    );
    svc.health_check = Some(HealthCheck {
        enabled: true,
        path: "/health".to_string(),
        interval: "10s".to_string(),
        timeout: "bad".to_string(),
        healthy_threshold: 2,
        unhealthy_threshold: 3,
    });
    let plan = backend_plan(&svc);
    assert_eq!(plan.name, "api");
    assert_eq!(plan.backends, vec![("10.0.0.1:80".to_string(), 5), ("10.0.0.2:8080".to_string(), 1)]);
    let hc = plan.health_check.as_ref().unwrap();
    assert_eq!((hc.timeout_secs, hc.interval_secs), (1, 10));
    assert_eq!(hc.host, "10.0.0.1");
    assert_eq!((hc.consecutive_success, hc.consecutive_failure), (2, 3));
    assert_eq!(plan_algorithm(&plan).unwrap(), Algorithm::RoundRobin);
    svc.algorithm = None;
    match plan_algorithm(&backend_plan(&svc)) {
        Err(NylonError::ConfigError(m)) => assert_eq!(m, "Unknown algorithm: None"),
        _ => panic!("expected an error"),
    }
}

#[test]
fn backend_directory_lookup_and_cache() {
    let mut dir = BackendDirectory::new();
    match dir.get("api") {
        Err(NylonError::ConfigError(m)) => assert_eq!(m, "Services not found: api"),
        _ => panic!("nothing stored yet"),
    }
    let services = vec![
        service("api", ServiceType::Http, Some(vec![])),
        service("plug", ServiceType::Plugin, None),
        service("web", ServiceType::Http, Some(vec![])),
    ];
    assert!(dir.store(&services, &vec![]).is_ok());
    assert_eq!(dir.get("web").unwrap(), 2);
    assert_eq!(dir.get("api").unwrap(), 0);
    assert_eq!(dir.get("api").unwrap(), 0);
    assert_eq!(dir.get_backend_service_cache_stats(), (2, 500));
    match dir.get("plug") {
        Err(NylonError::ConfigError(m)) => assert_eq!(m, "Service not found: plug"),
        _ => panic!("plugin services are not balanced"),
    }
    dir.clear_backend_service_cache();
    assert_eq!(dir.get_backend_service_cache_stats(), (0, 500));
    assert_eq!(dir.get("web").unwrap(), 2);
}

fn tls_store(tag: u8) -> TlsStore {
    TlsStore { cert: vec![tag], key: vec![tag, tag], chain: vec![vec![tag, 0]] }
}

#[test]
fn tls_registry_prefers_acme() {
    let mut reg = TlsRegistry::new();
    reg.add_custom(&vec!["a.com".to_string(), "b.com".to_string()], &tls_store(1));
    assert_eq!(reg.get_certs("a.com").unwrap().cert, vec![1]);
    assert_eq!(reg.get_certs("b.com").unwrap().chain, vec![vec![1, 0]]);
    reg.store_acme_cert(CertificateInfo::new("a.com".to_string(), vec![9], vec![8], vec![], 0, 100));
    let got = reg.get_certs("a.com").unwrap();
    assert_eq!((got.cert, got.key), (vec![9], vec![8]));
    assert_eq!(reg.get_certs("b.com").unwrap().cert, vec![1]);
    match reg.get_certs("c.com") {
        Err(NylonError::ConfigError(m)) => assert_eq!(m, "TLS domain c.com not found"),
        _ => panic!("unknown domain"),
    }
    assert_eq!(reg.acme_domains(), vec!["a.com".to_string()]);
}

#[test]
fn tls_entries() {
    let mut t = TlsConfig { kind: TlsKind::Custom, key: None, cert: None, chain: None, acme: None, domains: vec![] };
    match custom_cert_files(&t) {
        Err(NylonError::ConfigError(m)) => assert_eq!(m, "Custom TLS certificate path is required"),
        _ => panic!(),
    }
    t.cert = Some("c.pem".to_string());
    match custom_cert_files(&t) {
        Err(NylonError::ConfigError(m)) => assert_eq!(m, "Custom TLS key path is required"),
        _ => panic!(),
    }
    t.key = Some("k.pem".to_string());
    t.chain = Some(vec!["i.pem".to_string()]);
    let f = custom_cert_files(&t).unwrap();
    assert_eq!((f.cert_path.as_str(), f.key_path.as_str()), ("c.pem", "k.pem"));
    assert_eq!(f.chain_paths, vec!["i.pem".to_string()]);
    assert!(acme_settings(&t, &None).is_none());
    t.kind = TlsKind::Acme;
    t.acme = Some(AcmeConfig { provider: "letsencrypt".to_string(), email: "a@b.c".to_string(), acme_dir: None });
    let a = acme_settings(&t, &Some("/var/acme".to_string())).unwrap();
    assert_eq!(a.acme_dir.as_deref(), Some("/var/acme"));
    assert_eq!(a.email, "a@b.c");
}

fn conn(id: &str) -> WebSocketConnection {
    WebSocketConnection {
        id: id.to_string(),
        session_id: 1,
        rooms: vec![],
        node_id: "n".to_string(),
        connected_at: 0,
        metadata: vec![],
    }
}

#[test]
fn memory_adapter_rooms() {
    let mut a = MemoryAdapter::new();
    let node = a.get_node_id();
    assert_eq!(node.len(), 36);
    a.add_connection(conn("c1"));
    a.add_connection(conn("c2"));
    a.join_room("c1", "lobby");
    a.join_room("c2", "lobby");
    a.join_room("c1", "vip");
    let mut members = a.get_room_connections("lobby");
    members.sort();
    assert_eq!(members, vec!["c1".to_string(), "c2".to_string()]);
    let mut rooms = a.get_connection_rooms("c1");
    rooms.sort();
    assert_eq!(rooms, vec!["lobby".to_string(), "vip".to_string()]);
    a.leave_room("c1", "vip");
    assert!(a.get_room("vip").is_none());
    assert_eq!(a.get_connection_rooms("c1"), vec!["lobby".to_string()]);
    a.broadcast_to_room("lobby", WebSocketMessage::Text("hi".to_string()), Some("c1"));
    let events = a.take_events();
    assert_eq!(events.len(), 1);
    match &events[0] {
        WebSocketEvent::SendToConnection { connection_id, message: WebSocketMessage::Text(t), sender_node_id } => {
            assert_eq!(connection_id, "c2");
            assert_eq!(t, "hi");
            assert_eq!(sender_node_id, &node);
        },
        other => panic!("unexpected event {:?}", other),
    }
    a.remove_connection("c2");
    assert!(a.get_connection("c2").is_none());
    assert_eq!(a.get_room("lobby").unwrap().connections, vec!["c1".to_string()]);
    a.remove_connection("c1");
    assert!(a.get_room("lobby").is_none());
    a.send_to_connection("c9", WebSocketMessage::Ping(vec![1]));
    assert_eq!(a.take_events().len(), 1);
    assert!(a.take_events().is_empty());
}

#[test]
fn local_delivery_targets() {
    let mut a = MemoryAdapter::new();
    a.join_room("c1", "r");
    a.join_room("c2", "r");
    a.join_room("c3", "r");
    let mut senders: LocalSenders<u8> = LocalSenders::new();
    senders.register_local_sender("c1".to_string(), 1);
    senders.register_local_sender("c2".to_string(), 2);
    let ev = WebSocketEvent::BroadcastToRoom {
        room: "r".to_string(),
        message: WebSocketMessage::Text("x".to_string()),
        exclude_connection: Some("c2".to_string()),
        sender_node_id: "n".to_string(),
    };
    assert_eq!(senders.delivery_targets(&ev, &a), vec!["c1".to_string()]);
    let direct = WebSocketEvent::SendToConnection {
        connection_id: "c2".to_string(),
        message: WebSocketMessage::Binary(vec![]),
        sender_node_id: "n".to_string(),
    };
    assert_eq!(senders.delivery_targets(&direct, &a), vec!["c2".to_string()]);
    senders.unregister_local_sender("c2");
    assert!(senders.get("c2").is_none());
    assert!(senders.delivery_targets(&direct, &a).is_empty());
    let other = WebSocketEvent::Disconnect { connection_id: "c1".to_string(), node_id: "n".to_string() };
    assert!(senders.delivery_targets(&other, &a).is_empty());
}

#[test]
fn adapter_selection() {
    assert!(matches!(adapter_choice(None), Ok(AdapterChoice::Memory)));
    let redis = RedisAdapterConfig { host: "r".to_string(), port: 6379, password: None, db: None, key_prefix: None };
    let cfg = |t: AdapterType, r: Option<RedisAdapterConfig>| WebSocketAdapterConfig { adapter_type: t, redis: r, cluster: None };
    assert!(matches!(adapter_choice(Some(cfg(AdapterType::Memory, None))), Ok(AdapterChoice::Memory)));
    assert!(matches!(adapter_choice(Some(cfg(AdapterType::Redis, Some(redis.clone())))), Ok(AdapterChoice::Redis(c)) if c.port == 6379));
    match adapter_choice(Some(cfg(AdapterType::Cluster, None))) {
        Err(NylonError::ConfigError(m)) => assert_eq!(m, "Redis configuration required for Cluster adapter"),
        _ => panic!(),
    }
    match adapter_choice(Some(cfg(AdapterType::Redis, None))) {
        Err(NylonError::ConfigError(m)) => assert_eq!(m, "Redis configuration required for Redis adapter"),
        _ => panic!(),
    }
}

#[test]
fn backend_store_refuses_and_keeps_state() {
    let mut dir = BackendDirectory::new();
    let good = vec![service("api", ServiceType::Http, Some(vec![]))];
    assert!(dir.store(&good, &vec![]).is_ok());
    assert_eq!(dir.get("api").unwrap(), 0);
    let mut bad = vec![
        service("web", ServiceType::Http, Some(vec![Endpoint { ip: "10.0.0.9".to_string(), port: 81, weight: None }])),
        service("other", ServiceType::Http, Some(vec![])),
    ];
    bad[1].algorithm = None;
    assert_eq!(http_addresses(&bad), vec!["10.0.0.9:81".to_string()]);
    match dir.store(&bad, &vec![None]) {
        Err(NylonError::ConfigError(m)) => assert_eq!(m, "Unknown algorithm: None"),
        _ => panic!("a service without an algorithm is refused"),
    }
    match dir.store(&bad, &vec![Some("invalid socket address syntax".to_string())]) {
        Err(NylonError::ConfigError(m)) => assert_eq!(m, "Unable to parse address: invalid socket address syntax"),
        _ => panic!("an address that does not parse is refused"),
    }
    assert_eq!(dir.get_backend_service_cache_stats(), (1, 500));
    assert_eq!(dir.get("api").unwrap(), 0);
    match dir.get("web") {
        Err(NylonError::ConfigError(m)) => assert_eq!(m, "Service not found: web"),
        _ => panic!("a refused store changes nothing"),
    }
    bad[1].algorithm = Some(Algorithm::Random);
    let plans = plan_services(&bad, &vec![None]).unwrap();
    assert_eq!(plans.len(), 2);
    assert_eq!(plans[0].backends, vec![("10.0.0.9:81".to_string(), 1)]);
    assert!(dir.store(&bad, &vec![None]).is_ok());
    assert_eq!(dir.get("other").unwrap(), 1);
}

#[test]
fn route_patterns_with_too_many_parameters_are_refused() {
    assert_eq!(count_route_params("/{a}/{b}/{*rest}"), 2);
    assert_eq!(count_route_params("/{{x}}/{id}"), 1);
    let services = vec![service("api", ServiceType::Http, None)];
    let many: String = (0..26).map(|i| format!("/{{p{}}}", i)).collect();
    assert_eq!(count_route_params(&many), 26);
    let table = vec![route("r", "host", "a.com", vec![path(s(&many), "api", None)])];
    assert_eq!(route_error(RouteTable::store(&table, &services, &vec![])), "Failed to register route: Too many route parameters.");
    let enough: String = (0..25).map(|i| format!("/{{p{}}}", i)).collect();
    let table = vec![route("r", "host", "a.com", vec![path(s(&enough), "api", None)])];
    assert!(RouteTable::store(&table, &services, &vec![]).is_ok());
}

#[test]
fn whitespace_agrees_with_std() {
    for u in 0u32..0x3100 {
        if let Some(w) = char::from_u32(u) {
            let text = format!("{w}5{w}");
            assert_eq!(parse_seconds(&text) == Some(5), w.is_whitespace(), "U+{u:04X}");
        }
    }
}
