use nylon::config::proxy::{http_endpoint_ips, ProxyConfig, ProxyConfigExt};
use nylon::config::runtime::{threads_for_cpus, PingoraConfig, RuntimeConfig};
use nylon::config::services::{EndpointExt, HealthCheckExt};
use nylon::error::NylonError;
use nylon::store::GlobalStore;
use nylon::types::plugins::{MessagingConfig, PluginItem, PluginType};
use nylon::types::route::MiddlewareItem;
use nylon::types::services::{Endpoint, HealthCheck, Plugin, ServiceItem, ServiceType};
use nylon::types::tls::{TlsConfig, TlsKind};

fn endpoint(ip: &str, port: u16) -> Endpoint {
    Endpoint { ip: ip.to_string(), port, weight: None }
}

fn http_service(name: &str, eps: Vec<Endpoint>) -> ServiceItem {
    ServiceItem {
        name: name.to_string(),
        service_type: ServiceType::Http,
        algorithm: None,
        endpoints: Some(eps),
        health_check: None,
        plugin: None,
        static_conf: None,
    }
}

fn plugin_item(name: &str, kind: PluginType) -> PluginItem {
    PluginItem {
        name: name.to_string(),
        plugin_type: kind,
        file: None,
        entry: None,
        config: None,
        messaging: None,
        group: None,
        max_inflight: None,
        overflow_policy: None,
        per_phase: None,
    }
}

fn messaging(name: &str, servers: Vec<&str>) -> MessagingConfig {
    MessagingConfig {
        name: name.to_string(),
        servers: servers.into_iter().map(|s| s.to_string()).collect(),
        subject_prefix: None,
        request_timeout_ms: None,
        max_inflight: None,
        overflow_policy: None,
        retry: None,
        tls: None,
        auth: None,
        default_headers: None,
    }
}

fn health(interval: &str, timeout: &str, healthy: u32, unhealthy: u32, path: &str) -> HealthCheck {
    HealthCheck {
        enabled: true,
        path: path.to_string(),
        interval: interval.to_string(),
        timeout: timeout.to_string(),
        healthy_threshold: healthy,
        unhealthy_threshold: unhealthy,
    }
}

fn config_error(r: Result<(), NylonError>) -> String {
    match r {
        Err(NylonError::ConfigError(m)) => m,
        other => panic!("expected a configuration error, got {:?}", other),
    }
}

fn group(name: &str) -> (String, Vec<MiddlewareItem>) {
    (name.to_string(), Vec::new())
}

#[test]
fn runtime_defaults() {
    let c = RuntimeConfig::default_config();
    assert_eq!(c.config_dir, "/etc/nylon/config");
    assert_eq!(c.acme, ".acme");
    assert!(c.http.is_empty() && c.https.is_empty() && c.metrics.is_empty());
    let p = PingoraConfig::default_config();
    assert!(p.daemon);
    assert_eq!(p.grace_period_seconds, 60);
    assert_eq!(p.graceful_shutdown_timeout_seconds, 10);
    assert!(p.threads >= 1 && p.threads <= 16);
}

#[test]
fn threads_keep_cpus_free() {
    assert_eq!(threads_for_cpus(0), 1);
    assert_eq!(threads_for_cpus(1), 1);
    assert_eq!(threads_for_cpus(2), 1);
    assert_eq!(threads_for_cpus(5), 4);
    assert_eq!(threads_for_cpus(6), 4);
    assert_eq!(threads_for_cpus(8), 6);
    assert_eq!(threads_for_cpus(64), 16);
}

#[test]
fn runtime_config_store_round_trip() {
    let mut store = GlobalStore::new();
    match RuntimeConfig::get(&store) {
        Err(NylonError::ConfigError(m)) => assert_eq!(m, "Runtime config not found"),
        _ => panic!("expected a missing configuration"),
    }
    let mut c = RuntimeConfig::default_config();
    c.http.push("0.0.0.0:8080".to_string());
    assert!(c.store(&mut store).is_ok());
    let back = RuntimeConfig::get(&store).expect("stored configuration");
    assert_eq!(back.http, vec!["0.0.0.0:8080".to_string()]);
    assert_eq!(back.config_dir, "/etc/nylon/config");
}

#[test]
fn health_check_errors_in_order() {
    assert!(health("5s", "2s", 1, 1, "/health").is_valid().is_ok());
    assert_eq!(config_error(health("", "2s", 1, 1, "/h").is_valid()), "Interval must be set");
    assert_eq!(config_error(health("5s", "", 1, 1, "/h").is_valid()), "Timeout must be set");
    assert_eq!(config_error(health("5s", "2s", 0, 1, "/h").is_valid()), "Healthy threshold must be set");
    assert_eq!(config_error(health("5s", "2s", 1, 0, "/h").is_valid()), "Unhealthy threshold must be set");
    assert_eq!(config_error(health("5s", "2s", 1, 1, "").is_valid()), "Path must be set");
    assert_eq!(
        config_error(health("5m", "2s", 1, 1, "/h").is_valid()),
        "Interval must be in the format of [0-9]+[s]"
    );
    assert_eq!(
        config_error(health("5s", "2", 1, 1, "/h").is_valid()),
        "Timeout must be in the format of [0-9]+[s]"
    );
}

#[test]
fn merge_appends_lists_and_replaces_groups() {
    let mut a = ProxyConfig::empty();
    a.services = Some(vec![http_service("a", vec![endpoint("10.0.0.1", 80)])]);
    a.middleware_groups = Some(vec![group("g1"), group("g2")]);
    let mut b = ProxyConfig::empty();
    b.header_selector = Some("x-route".to_string());
    b.services = Some(vec![http_service("b", vec![endpoint("10.0.0.2", 80)])]);
    b.routes = None;
    b.middleware_groups = Some(vec![group("g2"), group("g3")]);
    a.merge(b);
    assert_eq!(a.header_selector.as_deref(), Some("x-route"));
    let names: Vec<String> = a.services.as_ref().unwrap().iter().map(|s| s.name.clone()).collect();
    assert_eq!(names, vec!["a".to_string(), "b".to_string()]);
    let groups: Vec<String> = a.middleware_groups.as_ref().unwrap().iter().map(|g| g.0.clone()).collect();
    assert_eq!(groups, vec!["g1".to_string(), "g2".to_string(), "g3".to_string()]);
    assert!(a.routes.is_none());
}

#[test]
fn merge_keeps_selector_when_other_has_none() {
    let mut a = ProxyConfig::empty();
    a.header_selector = Some("x-a".to_string());
    a.merge(ProxyConfig::empty());
    assert_eq!(a.header_selector.as_deref(), Some("x-a"));
    assert!(a.services.is_none());
}

#[test]
fn validate_accepts_a_sound_configuration() {
    let mut c = ProxyConfig::empty();
    c.services = Some(vec![http_service("api", vec![endpoint("127.0.0.1", 3000)])]);
    let ips = http_endpoint_ips(&c);
    assert_eq!(ips, vec!["127.0.0.1".to_string()]);
    assert!(c.validate(&vec![true]).is_ok());
}

#[test]
fn validate_rejects_repeated_service_name() {
    let mut c = ProxyConfig::empty();
    c.services = Some(vec![
        http_service("api", vec![endpoint("127.0.0.1", 3000)]),
        http_service("api", vec![endpoint("127.0.0.1", 3001)]),
    ]);
    assert_eq!(config_error(c.validate(&vec![true, true])), "Service name api is not unique");
}

#[test]
fn validate_rejects_repeated_tls_domain() {
    let mut c = ProxyConfig::empty();
    let tls = |d: Vec<&str>| TlsConfig {
        kind: TlsKind::Custom,
        key: None,
        cert: None,
        chain: None,
        acme: None,
        domains: d.into_iter().map(|x| x.to_string()).collect(),
    };
    c.tls = Some(vec![tls(vec!["a.com", "b.com"]), tls(vec!["b.com"])]);
    assert_eq!(config_error(c.validate(&vec![])), "TLS domain b.com is not unique");
}

#[test]
fn validate_rejects_bad_endpoints() {
    let mut c = ProxyConfig::empty();
    c.services = Some(vec![http_service("api", vec![endpoint("not-an-ip", 80)])]);
    assert_eq!(
        config_error(c.validate(&vec![false])),
        "Invalid IP address: invalid IP address syntax"
    );
    let mut c = ProxyConfig::empty();
    c.services = Some(vec![http_service("api", vec![endpoint("10.0.0.1", 0)])]);
    assert_eq!(
        config_error(c.validate(&vec![true])),
        "Endpoint port must be set for Endpoint { ip: \"10.0.0.1\", port: 0, weight: None }"
    );
    let mut c = ProxyConfig::empty();
    let mut s = http_service("api", vec![]);
    s.endpoints = None;
    c.services = Some(vec![s]);
    assert_eq!(config_error(c.validate(&vec![])), "HTTP service api must have at least one endpoint");
}

#[test]
fn validate_checks_plugin_services() {
    let mut c = ProxyConfig::empty();
    let svc = ServiceItem {
        name: "auth".to_string(),
        service_type: ServiceType::Plugin,
        algorithm: None,
        endpoints: None,
        health_check: None,
        plugin: Some(Plugin { name: "authz".to_string(), entry: "check".to_string(), payload: None }),
        static_conf: None,
    };
    c.services = Some(vec![svc]);
    assert_eq!(config_error(c.validate(&vec![])), "Plugin authz does not exist");
    let mut p = plugin_item("authz", PluginType::Ffi);
    p.file = Some("/lib/authz.so".to_string());
    c.plugins = Some(vec![p]);
    assert!(c.validate(&vec![]).is_ok());
}

#[test]
fn validate_checks_plugins_and_messaging() {
    let mut c = ProxyConfig::empty();
    c.plugins = Some(vec![plugin_item("w", PluginType::Wasm)]);
    assert_eq!(config_error(c.validate(&vec![])), "WASM plugins are not supported yet");

    c.plugins = Some(vec![plugin_item("f", PluginType::Ffi)]);
    assert_eq!(config_error(c.validate(&vec![])), "FFI plugin f requires a 'file' path");

    let mut m = plugin_item("m", PluginType::Messaging);
    m.messaging = Some("  bus ".to_string());
    c.plugins = Some(vec![m]);
    assert_eq!(
        config_error(c.validate(&vec![])),
        "Messaging plugin m references 'bus' but no messaging configs defined"
    );
    c.messaging = Some(vec![messaging("other", vec!["nats://localhost:4222"])]);
    assert_eq!(
        config_error(c.validate(&vec![])),
        "Messaging config 'bus' referenced by plugin m not found"
    );
    c.messaging = Some(vec![messaging("bus", vec!["nats://localhost:4222"])]);
    assert!(c.validate(&vec![]).is_ok());

    c.messaging = Some(vec![messaging("bus", vec![])]);
    assert_eq!(config_error(c.validate(&vec![])), "Messaging config bus must specify at least one server");
}

#[test]
fn validate_rejects_repeated_group_name() {
    let mut c = ProxyConfig::empty();
    c.middleware_groups = Some(vec![group("g"), group("g")]);
    assert_eq!(config_error(c.validate(&vec![])), "Middleware group name g is not unique");
}

#[test]
fn error_codes_and_statuses() {
    let e = NylonError::ConfigError("bad".to_string());
    assert_eq!(e.http_status(), 500);
    assert_eq!(e.error_code(), "CONFIG_ERROR");
    assert_eq!(e.message(), "bad");
    let e = NylonError::HttpException(404, "NOT_FOUND", "missing");
    assert_eq!(e.http_status(), 404);
    assert_eq!(e.error_code(), "NOT_FOUND");
    assert_eq!(e.message(), "missing");
    let e = NylonError::ShouldNeverHappen("x".to_string());
    assert!(e.message().starts_with("[BUG] This should never happen."));
    assert!(e.message().ends_with("x"));
}

#[test]
fn endpoint_address_errors() {
    let e = endpoint("10.0.0.1", 80);
    assert!(e.is_valid_ip(None).is_ok());
    match endpoint("bad", 80).is_valid_ip(Some("invalid IP address syntax")) {
        Err(NylonError::ConfigError(m)) => assert_eq!(m, "Invalid IP address: invalid IP address syntax"),
        _ => panic!("expected an error"),
    }
}
