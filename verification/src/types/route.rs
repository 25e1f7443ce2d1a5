//! Route configuration types.
use vstd::prelude::*;
use crate::types::json::JsonValue;

verus! {

/// A middleware reference: either a group name or a plugin with per-phase entries.
#[derive(Debug)]
pub struct MiddlewareItem {
    pub group: Option<String>,
    pub plugin: Option<String>,
    pub request_filter: Option<String>,
    pub response_filter: Option<String>,
    pub response_body_filter: Option<String>,
    pub logging: Option<String>,
    pub payload: Option<JsonValue>,
}

#[derive(Debug)]
pub struct RouteConfig {
    pub route: RouteMatcher,
    pub name: String,
    pub tls: Option<TlsRoute>,
    pub middleware: Option<Vec<MiddlewareItem>>,
    pub paths: Vec<PathConfig>,
}

/// How requests are matched to a route: `kind` is `host` or `header`.
#[derive(Debug, Clone)]
pub struct RouteMatcher {
    pub kind: String,
    pub value: String,
}

#[derive(Debug, Clone)]
pub struct TlsRoute {
    pub name: String,
    pub redirect: Option<bool>,
}

#[derive(Debug, Clone)]
pub struct Header {
    pub name: String,
    pub value: String,
}

/// One path (or list of paths) of a route, with its service.
#[derive(Debug)]
pub struct PathConfig {
    pub path: JsonValue,
    pub service: ServiceRef,
    pub middleware: Option<Vec<MiddlewareItem>>,
    pub methods: Option<Vec<String>>,
}

#[derive(Debug, Clone)]
pub struct ServiceRef {
    pub name: String,
    pub rewrite: Option<String>,
}

} // verus!
