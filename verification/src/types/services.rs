//! Upstream service configuration types.
use vstd::prelude::*;
use crate::types::json::JsonValue;

verus! {

#[derive(Debug, Clone)]
pub struct HealthCheck {
    pub enabled: bool,
    pub path: String,
    pub interval: String,
    pub timeout: String,
    pub healthy_threshold: u32,
    pub unhealthy_threshold: u32,
}

#[derive(Debug, Clone)]
pub struct Endpoint {
    pub ip: String,
    pub port: u16,
    pub weight: Option<u32>,
}

#[derive(Debug, Clone, Copy, PartialEq, Eq, Structural)]
pub enum ServiceType {
    Http,
    Plugin,
    Static,
}

#[derive(Debug, Clone, Copy, PartialEq, Eq, Structural)]
pub enum Algorithm {
    RoundRobin,
    Random,
    Consistent,
    Weighted,
}

#[derive(Debug)]
pub struct Plugin {
    pub name: String,
    pub entry: String,
    pub payload: Option<JsonValue>,
}

#[derive(Debug, Clone)]
pub struct StaticConfig {
    /// Root directory to serve files from
    pub root: String,
    /// Default index file to serve for directories (default: index.html)
    pub index: Option<String>,
    /// Enable SPA fallback: on 404, serve index file instead
    pub spa: Option<bool>,
}

#[derive(Debug)]
pub struct ServiceItem {
    pub name: String,
    pub service_type: ServiceType,
    pub algorithm: Option<Algorithm>,
    pub endpoints: Option<Vec<Endpoint>>,
    pub health_check: Option<HealthCheck>,
    pub plugin: Option<Plugin>,
    pub static_conf: Option<StaticConfig>,
}

} // verus!
