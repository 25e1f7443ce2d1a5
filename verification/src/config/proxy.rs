//! The proxy configuration: merging the files of a configuration directory,
//! and validating the result.
use vstd::prelude::*;
use vstd::string::*;
use crate::error::NylonError;
use crate::config::services::{health_check_issue, HealthCheckExt};
use crate::text::{char_is_whitespace, decimal_string, is_whitespace, str_chars, substring, u64_to_decimal};
use crate::types::plugins::{MessagingConfig, PluginItem, PluginType};
use crate::types::route::{MiddlewareItem, RouteConfig};
use crate::types::services::{Endpoint, ServiceItem, ServiceType};
use crate::types::tls::TlsConfig;

verus! {

/// The proxy configuration (services, routes, TLS, plugins, messaging, middleware groups).
#[derive(Debug)]
pub struct ProxyConfig {
    pub header_selector: Option<String>,
    pub services: Option<Vec<ServiceItem>>,
    pub tls: Option<Vec<TlsConfig>>,
    pub routes: Option<Vec<RouteConfig>>,
    pub plugins: Option<Vec<PluginItem>>,
    pub messaging: Option<Vec<MessagingConfig>>,
    /// Named middleware lists, one entry per name.
    pub middleware_groups: Option<Vec<(String, Vec<MiddlewareItem>)>>,
}

pub open spec fn opt_seq<T>(o: Option<Vec<T>>) -> Seq<T> {
    match o {
        Some(v) => v@,
        None => Seq::empty(),
    }
}

/// Two optional lists put together: the first list's items, then the second's.
pub open spec fn opt_concat<T>(a: Option<Vec<T>>, b: Option<Vec<T>>) -> Option<Seq<T>> {
    match (a, b) {
        (None, None) => None,
        (Some(x), None) => Some(x@),
        (None, Some(y)) => Some(y@),
        (Some(x), Some(y)) => Some(x@ + y@),
    }
}

pub open spec fn opt_view<T>(o: Option<Vec<T>>) -> Option<Seq<T>> {
    match o {
        Some(v) => Some(v@),
        None => None,
    }
}

pub open spec fn group_names(g: Seq<(String, Vec<MiddlewareItem>)>) -> Seq<Seq<char>> {
    g.map_values(|e: (String, Vec<MiddlewareItem>)| e.0@)
}

/// Index of the first group named `k` at or after `j`.
pub open spec fn group_find(g: Seq<(String, Vec<MiddlewareItem>)>, k: Seq<char>, j: int) -> Option<int>
    decreases g.len() - j,
{
    if 0 <= j < g.len() {
        if g[j].0@ == k { Some(j) } else { group_find(g, k, j + 1) }
    } else {
        None
    }
}

/// Groups with `e` put in: it replaces the first group of the same name, or is appended.
pub open spec fn group_put(g: Seq<(String, Vec<MiddlewareItem>)>, e: (String, Vec<MiddlewareItem>)) -> Seq<(String, Vec<MiddlewareItem>)> {
    match group_find(g, e.0@, 0) {
        Some(j) => g.update(j, e),
        None => g.push(e),
    }
}

/// Groups with the entries of `other[i..]` put in, in order.
pub open spec fn groups_put_all(g: Seq<(String, Vec<MiddlewareItem>)>, other: Seq<(String, Vec<MiddlewareItem>)>, i: int)
    -> Seq<(String, Vec<MiddlewareItem>)>
    decreases other.len() - i,
{
    if 0 <= i < other.len() {
        groups_put_all(group_put(g, other[i]), other, i + 1)
    } else {
        g
    }
}

impl ProxyConfig {
    /// An empty configuration.
    pub fn empty() -> (r: ProxyConfig)
        ensures
            r.header_selector.is_none() && r.services.is_none() && r.tls.is_none() && r.routes.is_none()
                && r.plugins.is_none() && r.messaging.is_none() && r.middleware_groups.is_none(),
    {
        ProxyConfig {
            header_selector: None,
            services: None,
            tls: None,
            routes: None,
            plugins: None,
            messaging: None,
            middleware_groups: None,
        }
    }
}

fn append_opt<T>(target: &mut Option<Vec<T>>, other: Option<Vec<T>>)
    ensures
        opt_view(*final(target)) == opt_concat(*old(target), other),
{
    match other {
        Some(mut items) => {
            match target {
                Some(list) => {
                    list.append(&mut items);
                },
                None => {
                    *target = Some(items);
                },
            }
        },
        None => {},
    }
}

fn put_group(groups: &mut Vec<(String, Vec<MiddlewareItem>)>, entry: (String, Vec<MiddlewareItem>))
    ensures
        final(groups)@ == group_put(old(groups)@, entry),
{
    let ghost g = groups@;
    let mut i: usize = 0;
    let mut found = false;
    while i < groups.len()
        invariant_except_break
            i <= groups.len(),
            groups@ == g,
            group_find(g, entry.0@, 0) == group_find(g, entry.0@, i as int),
            !found,
        ensures
            groups@ == g,
            found ==> i < groups.len() && group_find(g, entry.0@, 0) == Some(i as int),
            !found ==> group_find(g, entry.0@, 0).is_none(),
        decreases groups.len() - i,
    {
        if groups[i].0 == entry.0 {
            assert(group_find(g, entry.0@, i as int) == Some(i as int));
            found = true;
            break;
        }
        i = i + 1;
    }
    if found {
        groups.set(i, entry);
    } else {
        groups.push(entry);
    }
}

// ---------------------------------------------------------------------------
// Merging
// ---------------------------------------------------------------------------

/// Middleware groups after a merge.
pub open spec fn merged_groups(a: Option<Vec<(String, Vec<MiddlewareItem>)>>, b: Option<Vec<(String, Vec<MiddlewareItem>)>>)
    -> Option<Seq<(String, Vec<MiddlewareItem>)>>
{
    match (a, b) {
        (None, None) => None,
        (Some(x), None) => Some(x@),
        (None, Some(y)) => Some(y@),
        (Some(x), Some(y)) => Some(groups_put_all(x@, y@, 0)),
    }
}

/// Merging configurations, and checking one.
pub trait ProxyConfigExt {
    fn merge(&mut self, other: ProxyConfig);
    fn validate(&self, ip_ok: &Vec<bool>) -> Result<(), NylonError>;
}

impl ProxyConfigExt for ProxyConfig {
    /// Adds the declarations of `other`: its header selector replaces this one,
    /// its lists are appended to these, and its middleware groups are put in
    /// (a group replaces the one of the same name).
    fn merge(&mut self, other: ProxyConfig)
        ensures
            final(self).header_selector == (if other.header_selector.is_some() {
                other.header_selector
            } else {
                old(self).header_selector
            }),
            opt_view(final(self).services) == opt_concat(old(self).services, other.services),
            opt_view(final(self).tls) == opt_concat(old(self).tls, other.tls),
            opt_view(final(self).routes) == opt_concat(old(self).routes, other.routes),
            opt_view(final(self).plugins) == opt_concat(old(self).plugins, other.plugins),
            opt_view(final(self).messaging) == opt_concat(old(self).messaging, other.messaging),
            opt_view(final(self).middleware_groups) == merged_groups(old(self).middleware_groups, other.middleware_groups),
    {
        let ProxyConfig { header_selector, services, tls, routes, plugins, messaging, middleware_groups } = other;
        if header_selector.is_some() {
            self.header_selector = header_selector;
        }
        append_opt(&mut self.services, services);
        append_opt(&mut self.tls, tls);
        append_opt(&mut self.routes, routes);
        append_opt(&mut self.plugins, plugins);
        append_opt(&mut self.messaging, messaging);
        match middleware_groups {
            Some(new_groups) => {
                match &mut self.middleware_groups {
                    Some(groups) => {
                        let ghost start = groups@;
                        let ghost ng = new_groups@;
                        let mut rest = new_groups;
                        let n = rest.len();
                        let mut k: usize = 0;
                        assert(rest@ =~= ng.subrange(0, ng.len() as int));
                        while rest.len() > 0
                            invariant
                                k + rest@.len() == ng.len(),
                                ng.len() <= usize::MAX,
                                rest@ =~= ng.subrange(k as int, ng.len() as int),
                                groups_put_all(start, ng, 0) == groups_put_all(groups@, ng, k as int),
                            decreases rest.len(),
                        {
                            let e = rest.remove(0);
                            assert(e == ng[k as int]);
                            put_group(groups, e);
                            k = k + 1;
                            assert(rest@ =~= ng.subrange(k as int, ng.len() as int));
                        }
                    },
                    None => {
                        self.middleware_groups = Some(new_groups);
                    },
                }
            },
            None => {},
        }
    }

    /// Fails with the first problem of the configuration (see `spec_validate`).
    /// `ip_ok[k]` tells whether the address of the `k`-th endpoint of the HTTP
    /// services (see `http_endpoint_ips`) is a valid IP address.
    fn validate(&self, ip_ok: &Vec<bool>) -> (r: Result<(), NylonError>)
        ensures
            match spec_validate(*self, ip_ok@) {
                None => r.is_ok(),
                Some(m) => r matches Err(NylonError::ConfigError(e)) && e@ == m,
            },
            (exists|i: int, j: int| 0 <= i < j < opt_seq(self.routes).len()
                && #[trigger] opt_seq(self.routes)[i].name@ == #[trigger] opt_seq(self.routes)[j].name@) ==> r is Err,
            (exists|i: int, j: int| 0 <= i < j < opt_seq(self.services).len()
                && #[trigger] opt_seq(self.services)[i].name@ == #[trigger] opt_seq(self.services)[j].name@) ==> r is Err,
            (exists|i: int, j: int| 0 <= i < j < opt_seq(self.plugins).len()
                && #[trigger] opt_seq(self.plugins)[i].name@ == #[trigger] opt_seq(self.plugins)[j].name@) ==> r is Err,
    {
        let r = match validate_config(self, ip_ok) {
            Some(m) => Err(NylonError::ConfigError(m)),
            None => Ok(()),
        };
        proof {
            if exists|i: int, j: int| 0 <= i < j < opt_seq(self.routes).len()
                && #[trigger] opt_seq(self.routes)[i].name@ == #[trigger] opt_seq(self.routes)[j].name@ {
                let (i, j) = choose|i: int, j: int| 0 <= i < j < opt_seq(self.routes).len()
                    && #[trigger] opt_seq(self.routes)[i].name@ == #[trigger] opt_seq(self.routes)[j].name@;
                law_duplicate_route_rejected(*self, ip_ok@, i, j);
            }
            if exists|i: int, j: int| 0 <= i < j < opt_seq(self.services).len()
                && #[trigger] opt_seq(self.services)[i].name@ == #[trigger] opt_seq(self.services)[j].name@ {
                let (i, j) = choose|i: int, j: int| 0 <= i < j < opt_seq(self.services).len()
                    && #[trigger] opt_seq(self.services)[i].name@ == #[trigger] opt_seq(self.services)[j].name@;
                law_duplicate_service_rejected(*self, ip_ok@, i, j);
            }
            if exists|i: int, j: int| 0 <= i < j < opt_seq(self.plugins).len()
                && #[trigger] opt_seq(self.plugins)[i].name@ == #[trigger] opt_seq(self.plugins)[j].name@ {
                let (i, j) = choose|i: int, j: int| 0 <= i < j < opt_seq(self.plugins).len()
                    && #[trigger] opt_seq(self.plugins)[i].name@ == #[trigger] opt_seq(self.plugins)[j].name@;
                law_duplicate_plugin_rejected(*self, ip_ok@, i, j);
            }
        }
        r
    }
}

// ---------------------------------------------------------------------------
// Validation
// ---------------------------------------------------------------------------

pub open spec fn or_else(a: Option<Seq<char>>, b: Option<Seq<char>>) -> Option<Seq<char>> {
    if a.is_some() { a } else { b }
}

pub open spec fn strings_view(s: Seq<String>) -> Seq<Seq<char>> {
    s.map_values(|x: String| x@)
}

/// Index of the first name that repeats an earlier one, from `i` on.
pub open spec fn first_dup(names: Seq<Seq<char>>, i: int) -> Option<int>
    decreases names.len() - i,
{
    if 0 <= i < names.len() {
        if exists|k: int| 0 <= k < i && names[k] == names[i] { Some(i) } else { first_dup(names, i + 1) }
    } else {
        None
    }
}

/// The message for the first repeated name, if any.
pub open spec fn dup_issue(what: Seq<char>, names: Seq<Seq<char>>) -> Option<Seq<char>> {
    match first_dup(names, 0) {
        Some(i) => Some(what + names[i] + " is not unique"@),
        None => None,
    }
}

pub open spec fn service_names(cfg: ProxyConfig) -> Seq<Seq<char>> {
    opt_seq(cfg.services).map_values(|s: ServiceItem| s.name@)
}

pub open spec fn route_names(cfg: ProxyConfig) -> Seq<Seq<char>> {
    opt_seq(cfg.routes).map_values(|r: RouteConfig| r.name@)
}

pub open spec fn plugin_names(cfg: ProxyConfig) -> Seq<Seq<char>> {
    opt_seq(cfg.plugins).map_values(|p: PluginItem| p.name@)
}

/// All domains of the TLS declarations, in order.
pub open spec fn tls_domains(ts: Seq<TlsConfig>) -> Seq<Seq<char>>
    decreases ts.len(),
{
    if ts.len() == 0 {
        Seq::empty()
    } else {
        tls_domains(ts.drop_last()) + strings_view(ts.last().domains@)
    }
}

/// Messaging declarations, in order: a repeated name, or no server.
pub open spec fn messaging_issue(ms: Seq<MessagingConfig>, i: int) -> Option<Seq<char>>
    decreases ms.len() - i,
{
    if 0 <= i < ms.len() {
        let names = ms.map_values(|m: MessagingConfig| m.name@);
        if exists|k: int| 0 <= k < i && names[k] == names[i] {
            Some("Messaging config name "@ + names[i] + " is not unique"@)
        } else if ms[i].servers@.len() == 0 {
            Some("Messaging config "@ + names[i] + " must specify at least one server"@)
        } else {
            messaging_issue(ms, i + 1)
        }
    } else {
        None
    }
}

/// The `Debug` text of a string: quoted, with its special characters escaped.
pub uninterp spec fn str_debug(s: Seq<char>) -> Seq<char>;

/// Formats a string with its `Debug` form (`format!("{:?}", s)`); the text is
/// named by `str_debug`.
#[verifier::external_body]
fn str_debug_text(s: &str) -> (r: String)
    ensures
        r@ == str_debug(s@),
{
    format!("{:?}", s)
}

/// The `Debug` text of an optional number: `None` or `Some(n)`.
pub open spec fn option_u32_debug(w: Option<u32>) -> Seq<char> {
    match w {
        Some(n) => "Some("@ + decimal_string(n as nat) + ")"@,
        None => "None"@,
    }
}

/// Text of an endpoint as its `Debug` form prints it:
/// `Endpoint { ip: "..", port: .., weight: .. }`.
pub open spec fn endpoint_debug(ip: Seq<char>, port: u16, weight: Option<u32>) -> Seq<char> {
    "Endpoint { ip: "@ + str_debug(ip) + ", port: "@ + decimal_string(port as nat) + ", weight: "@
        + option_u32_debug(weight) + " }"@
}

/// The `Debug` text of an endpoint, built from its fields.
fn endpoint_debug_text(ip: &str, port: u16, weight: Option<u32>) -> (r: String)
    ensures
        r@ == endpoint_debug(ip@, port, weight),
{
    let w = match weight {
        Some(n) => String::from_str("Some(").concat(u64_to_decimal(n as u64).as_str()).concat(")"),
        None => String::from_str("None"),
    };
    proof {
        reveal_strlit("Some(");
        reveal_strlit(")");
        reveal_strlit("None");
        reveal_strlit("Endpoint { ip: ");
        reveal_strlit(", port: ");
        reveal_strlit(", weight: ");
        reveal_strlit(" }");
    }
    let r = String::from_str("Endpoint { ip: ").concat(str_debug_text(ip).as_str()).concat(", port: ")
        .concat(u64_to_decimal(port as u64).as_str()).concat(", weight: ").concat(w.as_str()).concat(" }");
    assert(r@ =~= endpoint_debug(ip@, port, weight));
    r
}

pub open spec fn invalid_ip_message() -> Seq<char> {
    "Invalid IP address: invalid IP address syntax"@
}

/// Endpoints `eps[j..]` in order; `ip_ok[off + j]` tells whether the address of `eps[j]` is valid.
pub open spec fn endpoints_issue(eps: Seq<Endpoint>, j: int, off: int, ip_ok: Seq<bool>) -> Option<Seq<char>>
    decreases eps.len() - j,
{
    if 0 <= j < eps.len() {
        if !(0 <= off + j < ip_ok.len() && ip_ok[off + j]) {
            Some(invalid_ip_message())
        } else if eps[j].port == 0 {
            Some("Endpoint port must be set for "@ + endpoint_debug(eps[j].ip@, eps[j].port, eps[j].weight))
        } else {
            endpoints_issue(eps, j + 1, off, ip_ok)
        }
    } else {
        None
    }
}

pub open spec fn plugin_declared(cfg: ProxyConfig, name: Seq<char>) -> bool {
    exists|k: int| 0 <= k < opt_seq(cfg.plugins).len() && opt_seq(cfg.plugins)[k].name@ == name
}

/// The problem of one service; `off` is the number of HTTP endpoints before it.
pub open spec fn service_issue(cfg: ProxyConfig, s: ServiceItem, off: int, ip_ok: Seq<bool>) -> Option<Seq<char>> {
    if s.service_type == ServiceType::Http {
        match s.endpoints {
            None => Some("HTTP service "@ + s.name@ + " must have at least one endpoint"@),
            Some(eps) => or_else(
                endpoints_issue(eps@, 0, off, ip_ok),
                match s.health_check {
                    Some(h) => health_check_issue(h),
                    None => None,
                },
            ),
        }
    } else if s.service_type == ServiceType::Plugin {
        match s.plugin {
            None => Some("Plugin service "@ + s.name@ + " must have a plugin"@),
            Some(p) => if p.name@.len() == 0 {
                Some("Plugin name must be set for "@ + p.name@)
            } else if p.entry@.len() == 0 {
                Some("Plugin entry must be set for "@ + p.name@)
            } else if !plugin_declared(cfg, p.name@) {
                Some("Plugin "@ + p.name@ + " does not exist"@)
            } else {
                None
            },
        }
    } else {
        None
    }
}

/// Number of endpoints a service contributes to the HTTP endpoint list.
pub open spec fn http_count(s: ServiceItem) -> int {
    if s.service_type == ServiceType::Http && s.endpoints.is_some() { s.endpoints.unwrap()@.len() as int } else { 0 }
}

pub open spec fn services_issue(cfg: ProxyConfig, svcs: Seq<ServiceItem>, i: int, off: int, ip_ok: Seq<bool>) -> Option<Seq<char>>
    decreases svcs.len() - i,
{
    if 0 <= i < svcs.len() {
        or_else(service_issue(cfg, svcs[i], off, ip_ok), services_issue(cfg, svcs, i + 1, off + http_count(svcs[i]), ip_ok))
    } else {
        None
    }
}

pub open spec fn endpoint_ip_list(eps: Seq<Endpoint>) -> Seq<Seq<char>> {
    eps.map_values(|e: Endpoint| e.ip@)
}

/// Addresses of the endpoints of the HTTP services, in order.
pub open spec fn spec_http_endpoint_ips(svcs: Seq<ServiceItem>) -> Seq<Seq<char>>
    decreases svcs.len(),
{
    if svcs.len() == 0 {
        Seq::empty()
    } else {
        let s = svcs.last();
        spec_http_endpoint_ips(svcs.drop_last()) + if s.service_type == ServiceType::Http && s.endpoints.is_some() {
            endpoint_ip_list(s.endpoints.unwrap()@)
        } else {
            Seq::empty()
        }
    }
}

/// `s` without leading whitespace.
pub open spec fn trim_start_ws(s: Seq<char>) -> Seq<char>
    decreases s.len(),
{
    if s.len() > 0 && char_is_whitespace(s[0]) { trim_start_ws(s.drop_first()) } else { s }
}

/// `s` without trailing whitespace.
pub open spec fn trim_end_ws(s: Seq<char>) -> Seq<char>
    decreases s.len(),
{
    if s.len() > 0 && char_is_whitespace(s.last()) { trim_end_ws(s.drop_last()) } else { s }
}

/// `s` without surrounding whitespace (as `str::trim`).
pub open spec fn trim_ws(s: Seq<char>) -> Seq<char> {
    trim_end_ws(trim_start_ws(s))
}

pub open spec fn plugin_issue(cfg: ProxyConfig, p: PluginItem) -> Option<Seq<char>> {
    match p.plugin_type {
        PluginType::Ffi => {
            if p.file.is_none() || p.file.unwrap()@.len() == 0 {
                Some("FFI plugin "@ + p.name@ + " requires a 'file' path"@)
            } else {
                None
            }
        },
        PluginType::Messaging => {
            let reference = match p.messaging { Some(m) => trim_ws(m@), None => Seq::empty() };
            if reference.len() == 0 {
                Some("Messaging plugin "@ + p.name@ + " must set 'messaging' reference"@)
            } else {
                match cfg.messaging {
                    Some(ms) => if exists|k: int| 0 <= k < ms@.len() && ms@[k].name@ == reference {
                        None
                    } else {
                        Some("Messaging config '"@ + reference + "' referenced by plugin "@ + p.name@ + " not found"@)
                    },
                    None => Some("Messaging plugin "@ + p.name@ + " references '"@ + reference
                        + "' but no messaging configs defined"@),
                }
            }
        },
        PluginType::Wasm => Some("WASM plugins are not supported yet"@),
    }
}

pub open spec fn plugins_issue(cfg: ProxyConfig, ps: Seq<PluginItem>, i: int) -> Option<Seq<char>>
    decreases ps.len() - i,
{
    if 0 <= i < ps.len() {
        or_else(plugin_issue(cfg, ps[i]), plugins_issue(cfg, ps, i + 1))
    } else {
        None
    }
}

/// The first problem of a configuration, in the order the checks run: repeated
/// service, route, TLS domain, plugin, messaging and middleware group names;
/// messaging without servers; then each service, then each plugin.
pub open spec fn spec_validate(cfg: ProxyConfig, ip_ok: Seq<bool>) -> Option<Seq<char>> {
    or_else(dup_issue("Service name "@, service_names(cfg)),
    or_else(dup_issue("Route name "@, route_names(cfg)),
    or_else(dup_issue("TLS domain "@, tls_domains(opt_seq(cfg.tls))),
    or_else(dup_issue("Plugin name "@, plugin_names(cfg)),
    or_else(messaging_issue(opt_seq(cfg.messaging), 0),
    or_else(dup_issue("Middleware group name "@, group_names(opt_seq(cfg.middleware_groups))),
    or_else(services_issue(cfg, opt_seq(cfg.services), 0, 0, ip_ok),
    plugins_issue(cfg, opt_seq(cfg.plugins), 0))))))))
}

// ---------------------------------------------------------------------------
// Executable checks
// ---------------------------------------------------------------------------

fn first_dup_exec(names: &Vec<String>) -> (r: Option<usize>)
    ensures
        match r {
            Some(i) => i < names.len() && first_dup(strings_view(names@), 0) == Some(i as int),
            None => first_dup(strings_view(names@), 0).is_none(),
        },
{
    let ghost v = strings_view(names@);
    let mut i: usize = 0;
    while i < names.len()
        invariant
            i <= names.len(),
            v == strings_view(names@),
            first_dup(v, 0) == first_dup(v, i as int),
        decreases names.len() - i,
    {
        let mut j: usize = 0;
        let mut seen = false;
        while j < i
            invariant
                j <= i < names.len(),
                v == strings_view(names@),
                seen == exists|k: int| 0 <= k < j && v[k] == v[i as int],
            decreases i - j,
        {
            assert(v[j as int] == names@[j as int]@ && v[i as int] == names@[i as int]@);
            if names[j] == names[i] {
                seen = true;
            }
            j = j + 1;
        }
        if seen {
            return Some(i);
        }
        i = i + 1;
    }
    None
}

fn dup_message(what: &str, name: &String) -> (r: String)
    ensures
        r@ == what@ + name@ + " is not unique"@,
{
    String::from_str(what).concat(name.as_str()).concat(" is not unique")
}

fn dup_issue_exec(what: &str, names: &Vec<String>) -> (r: Option<String>)
    ensures
        match r {
            Some(m) => dup_issue(what@, strings_view(names@)) == Some(m@),
            None => dup_issue(what@, strings_view(names@)).is_none(),
        },
{
    match first_dup_exec(names) {
        Some(i) => Some(dup_message(what, &names[i])),
        None => None,
    }
}

fn service_name_list(cfg: &ProxyConfig) -> (r: Vec<String>)
    ensures
        strings_view(r@) == service_names(*cfg),
{
    let mut out: Vec<String> = Vec::new();
    match &cfg.services {
        Some(svcs) => {
            let mut i: usize = 0;
            while i < svcs.len()
                invariant
                    i <= svcs.len(),
                    out@.len() == i,
                    forall|k: int| 0 <= k < i ==> #[trigger] out@[k]@ == svcs@[k].name@,
                decreases svcs.len() - i,
            {
                out.push(svcs[i].name.clone());
                i = i + 1;
            }
            assert(strings_view(out@) =~= service_names(*cfg));
        },
        None => {
            assert(strings_view(out@) =~= service_names(*cfg));
        },
    }
    out
}

fn route_name_list(cfg: &ProxyConfig) -> (r: Vec<String>)
    ensures
        strings_view(r@) == route_names(*cfg),
{
    let mut out: Vec<String> = Vec::new();
    match &cfg.routes {
        Some(rs) => {
            let mut i: usize = 0;
            while i < rs.len()
                invariant
                    i <= rs.len(),
                    out@.len() == i,
                    forall|k: int| 0 <= k < i ==> #[trigger] out@[k]@ == rs@[k].name@,
                decreases rs.len() - i,
            {
                out.push(rs[i].name.clone());
                i = i + 1;
            }
            assert(strings_view(out@) =~= route_names(*cfg));
        },
        None => {
            assert(strings_view(out@) =~= route_names(*cfg));
        },
    }
    out
}

fn plugin_name_list(cfg: &ProxyConfig) -> (r: Vec<String>)
    ensures
        strings_view(r@) == plugin_names(*cfg),
{
    let mut out: Vec<String> = Vec::new();
    match &cfg.plugins {
        Some(ps) => {
            let mut i: usize = 0;
            while i < ps.len()
                invariant
                    i <= ps.len(),
                    out@.len() == i,
                    forall|k: int| 0 <= k < i ==> #[trigger] out@[k]@ == ps@[k].name@,
                decreases ps.len() - i,
            {
                out.push(ps[i].name.clone());
                i = i + 1;
            }
            assert(strings_view(out@) =~= plugin_names(*cfg));
        },
        None => {
            assert(strings_view(out@) =~= plugin_names(*cfg));
        },
    }
    out
}

fn group_name_list(cfg: &ProxyConfig) -> (r: Vec<String>)
    ensures
        strings_view(r@) == group_names(opt_seq(cfg.middleware_groups)),
{
    let mut out: Vec<String> = Vec::new();
    match &cfg.middleware_groups {
        Some(gs) => {
            let mut i: usize = 0;
            while i < gs.len()
                invariant
                    i <= gs.len(),
                    out@.len() == i,
                    forall|k: int| 0 <= k < i ==> #[trigger] out@[k]@ == gs@[k].0@,
                decreases gs.len() - i,
            {
                out.push(gs[i].0.clone());
                i = i + 1;
            }
            assert(strings_view(out@) =~= group_names(opt_seq(cfg.middleware_groups)));
        },
        None => {
            assert(strings_view(out@) =~= group_names(opt_seq(cfg.middleware_groups)));
        },
    }
    out
}

fn push_strings(out: &mut Vec<String>, items: &Vec<String>)
    ensures
        strings_view(final(out)@) == strings_view(old(out)@) + strings_view(items@),
{
    let ghost start = out@;
    let mut j: usize = 0;
    while j < items.len()
        invariant
            j <= items.len(),
            out@.len() == start.len() + j,
            forall|k: int| 0 <= k < start.len() ==> #[trigger] out@[k] == start[k],
            forall|k: int| 0 <= k < j ==> #[trigger] out@[start.len() + k]@ == items@[k]@,
        decreases items.len() - j,
    {
        out.push(items[j].clone());
        j = j + 1;
    }
    assert forall|k: int| 0 <= k < out@.len() implies #[trigger] strings_view(out@)[k] == (strings_view(start) + strings_view(items@))[k] by {
        if k >= start.len() {
            assert(out@[start.len() + (k - start.len())]@ == items@[k - start.len()]@);
        }
    }
    assert(strings_view(out@) =~= strings_view(start) + strings_view(items@));
}

fn tls_domain_list(cfg: &ProxyConfig) -> (r: Vec<String>)
    ensures
        strings_view(r@) == tls_domains(opt_seq(cfg.tls)),
{
    let mut out: Vec<String> = Vec::new();
    match &cfg.tls {
        Some(ts) => {
            let mut i: usize = 0;
            assert(tls_domains(ts@.subrange(0, 0)) =~= Seq::<Seq<char>>::empty());
            assert(strings_view(out@) =~= Seq::<Seq<char>>::empty());
            while i < ts.len()
                invariant
                    i <= ts.len(),
                    strings_view(out@) == tls_domains(ts@.subrange(0, i as int)),
                decreases ts.len() - i,
            {
                push_strings(&mut out, &ts[i].domains);
                assert(ts@.subrange(0, i + 1).drop_last() =~= ts@.subrange(0, i as int));
                i = i + 1;
            }
            assert(ts@.subrange(0, i as int) =~= ts@);
        },
        None => {
            assert(strings_view(out@) =~= tls_domains(opt_seq(cfg.tls)));
        },
    }
    out
}

fn messaging_issue_exec(ms: &Vec<MessagingConfig>) -> (r: Option<String>)
    ensures
        match r {
            Some(m) => messaging_issue(ms@, 0) == Some(m@),
            None => messaging_issue(ms@, 0).is_none(),
        },
{
    let ghost names = ms@.map_values(|m: MessagingConfig| m.name@);
    let mut i: usize = 0;
    while i < ms.len()
        invariant
            i <= ms.len(),
            names == ms@.map_values(|m: MessagingConfig| m.name@),
            messaging_issue(ms@, 0) == messaging_issue(ms@, i as int),
        decreases ms.len() - i,
    {
        let mut j: usize = 0;
        let mut seen = false;
        while j < i
            invariant
                j <= i < ms.len(),
                names == ms@.map_values(|m: MessagingConfig| m.name@),
                seen == exists|k: int| 0 <= k < j && names[k] == names[i as int],
            decreases i - j,
        {
            assert(names[j as int] == ms@[j as int].name@ && names[i as int] == ms@[i as int].name@);
            if ms[j].name == ms[i].name {
                seen = true;
            }
            j = j + 1;
        }
        if seen {
            let m = String::from_str("Messaging config name ").concat(ms[i].name.as_str()).concat(" is not unique");
            return Some(m);
        }
        if ms[i].servers.len() == 0 {
            let m = String::from_str("Messaging config ").concat(ms[i].name.as_str())
                .concat(" must specify at least one server");
            return Some(m);
        }
        i = i + 1;
    }
    None
}

fn health_issue_exec(h: &crate::types::services::HealthCheck) -> (r: Option<String>)
    ensures
        match r {
            Some(m) => health_check_issue(*h) == Some(m@),
            None => health_check_issue(*h).is_none(),
        },
{
    match h.is_valid() {
        Ok(()) => None,
        Err(NylonError::ConfigError(m)) => Some(m),
        Err(_) => None,
    }
}

fn plugin_declared_exec(cfg: &ProxyConfig, name: &String) -> (b: bool)
    ensures
        b == plugin_declared(*cfg, name@),
{
    match &cfg.plugins {
        Some(ps) => {
            let mut i: usize = 0;
            while i < ps.len()
                invariant
                    i <= ps.len(),
                    cfg.plugins == Some(*ps),
                    forall|k: int| 0 <= k < i ==> ps@[k].name@ != name@,
                decreases ps.len() - i,
            {
                if ps[i].name == *name {
                    return true;
                }
                i = i + 1;
            }
            false
        },
        None => false,
    }
}

fn service_issue_exec(cfg: &ProxyConfig, s: &ServiceItem, off: usize, Ghost(real_off): Ghost<int>, ip_ok: &Vec<bool>)
    -> (r: Option<String>)
    requires
        off <= ip_ok.len(),
        real_off == off || (off == ip_ok.len() && real_off >= off),
    ensures
        match r {
            Some(m) => service_issue(*cfg, *s, real_off, ip_ok@) == Some(m@),
            None => service_issue(*cfg, *s, real_off, ip_ok@).is_none(),
        },
{
    match s.service_type {
        ServiceType::Http => {
            match &s.endpoints {
                None => {
                    let m = String::from_str("HTTP service ").concat(s.name.as_str())
                        .concat(" must have at least one endpoint");
                    Some(m)
                },
                Some(eps) => {
                    let mut j: usize = 0;
                    while j < eps.len()
                        invariant
                            j <= eps.len(),
                            off <= ip_ok.len(),
                            s.endpoints == Some(*eps),
                            real_off == off || (off == ip_ok.len() && real_off >= off),
                            s.service_type == ServiceType::Http,
                            endpoints_issue(eps@, 0, real_off, ip_ok@) == endpoints_issue(eps@, j as int, real_off, ip_ok@),
                        decreases eps.len() - j,
                    {
                        let ok = off < ip_ok.len() && j < ip_ok.len() - off && ip_ok[off + j];
                        if !ok {
                            let m = String::from_str("Invalid IP address: invalid IP address syntax");
                            assert(endpoints_issue(eps@, j as int, real_off, ip_ok@) == Some(m@));
                            assert(endpoints_issue(eps@, 0, real_off, ip_ok@) == Some(m@));
                            return Some(m);
                        }
                        if eps[j].port == 0 {
                            let d = endpoint_debug_text(eps[j].ip.as_str(), eps[j].port, eps[j].weight);
                            return Some(String::from_str("Endpoint port must be set for ").concat(d.as_str()));
                        }
                        j = j + 1;
                    }
                    match &s.health_check {
                        Some(h) => health_issue_exec(h),
                        None => None,
                    }
                },
            }
        },
        ServiceType::Plugin => {
            match &s.plugin {
                None => {
                    Some(String::from_str("Plugin service ").concat(s.name.as_str()).concat(" must have a plugin"))
                },
                Some(p) => {
                    if p.name.as_str().is_empty() {
                        Some(String::from_str("Plugin name must be set for ").concat(p.name.as_str()))
                    } else if p.entry.as_str().is_empty() {
                        Some(String::from_str("Plugin entry must be set for ").concat(p.name.as_str()))
                    } else if !plugin_declared_exec(cfg, &p.name) {
                        Some(String::from_str("Plugin ").concat(p.name.as_str()).concat(" does not exist"))
                    } else {
                        None
                    }
                },
            }
        },
        ServiceType::Static => None,
    }
}

fn services_issue_exec(cfg: &ProxyConfig, ip_ok: &Vec<bool>) -> (r: Option<String>)
    ensures
        match r {
            Some(m) => services_issue(*cfg, opt_seq(cfg.services), 0, 0, ip_ok@) == Some(m@),
            None => services_issue(*cfg, opt_seq(cfg.services), 0, 0, ip_ok@).is_none(),
        },
{
    match &cfg.services {
        Some(svcs) => {
            let mut i: usize = 0;
            let mut off: usize = 0;
            let ghost mut real_off: int = 0;
            while i < svcs.len()
                invariant
                    i <= svcs.len(),
                    cfg.services == Some(*svcs),
                    off <= ip_ok.len(),
                    real_off >= 0,
                    off == real_off || (off == ip_ok.len() && real_off >= off),
                    services_issue(*cfg, svcs@, 0, 0, ip_ok@) == services_issue(*cfg, svcs@, i as int, real_off, ip_ok@),
                decreases svcs.len() - i,
            {
                let s = &svcs[i];
                match service_issue_exec(cfg, s, off, Ghost(real_off), ip_ok) {
                    Some(m) => {
                        return Some(m);
                    },
                    None => {},
                }
                let count: usize = if s.service_type == ServiceType::Http {
                    match &s.endpoints {
                        Some(eps) => eps.len(),
                        None => 0,
                    }
                } else {
                    0
                };
                proof {
                    real_off = real_off + http_count(svcs@[i as int]);
                }
                off = if count <= ip_ok.len() - off { off + count } else { ip_ok.len() };
                i = i + 1;
            }
            None
        },
        None => None,
    }
}

pub(crate) fn trim_exec(s: &String) -> (r: String)
    ensures
        r@ == trim_ws(s@),
{
    let chars = str_chars(s.as_str());
    let ghost v = chars@;
    let mut a: usize = 0;
    assert(v.subrange(0, v.len() as int) =~= v);
    while a < chars.len() && is_whitespace(chars[a])
        invariant
            a <= chars.len(),
            v == chars@,
            trim_start_ws(v.subrange(a as int, v.len() as int)) == trim_start_ws(v),
        decreases chars.len() - a,
    {
        assert(v.subrange(a as int, v.len() as int).drop_first() =~= v.subrange(a + 1, v.len() as int));
        a = a + 1;
    }
    assert(trim_start_ws(v.subrange(a as int, v.len() as int)) == v.subrange(a as int, v.len() as int));
    let mut b: usize = chars.len();
    while b > a && is_whitespace(chars[b - 1])
        invariant
            a <= b <= chars.len(),
            v == chars@,
            trim_end_ws(v.subrange(a as int, b as int)) == trim_ws(v),
        decreases b,
    {
        assert(v.subrange(a as int, b as int).drop_last() =~= v.subrange(a as int, b - 1));
        b = b - 1;
    }
    substring(&chars, a, b)
}

fn messaging_declared(cfg_ms: &Vec<MessagingConfig>, name: &String) -> (b: bool)
    ensures
        b == exists|k: int| 0 <= k < cfg_ms@.len() && cfg_ms@[k].name@ == name@,
{
    let mut i: usize = 0;
    while i < cfg_ms.len()
        invariant
            i <= cfg_ms.len(),
            forall|k: int| 0 <= k < i ==> cfg_ms@[k].name@ != name@,
        decreases cfg_ms.len() - i,
    {
        if cfg_ms[i].name == *name {
            return true;
        }
        i = i + 1;
    }
    false
}

fn plugin_issue_exec(cfg: &ProxyConfig, p: &PluginItem) -> (r: Option<String>)
    ensures
        match r {
            Some(m) => plugin_issue(*cfg, *p) == Some(m@),
            None => plugin_issue(*cfg, *p).is_none(),
        },
{
    match p.plugin_type {
        PluginType::Ffi => {
            let missing = match &p.file {
                Some(f) => f.as_str().is_empty(),
                None => true,
            };
            if missing {
                Some(String::from_str("FFI plugin ").concat(p.name.as_str()).concat(" requires a 'file' path"))
            } else {
                None
            }
        },
        PluginType::Messaging => {
            let reference = match &p.messaging {
                Some(m) => trim_exec(m),
                None => String::new(),
            };
            if reference.as_str().is_empty() {
                return Some(String::from_str("Messaging plugin ").concat(p.name.as_str())
                    .concat(" must set 'messaging' reference"));
            }
            match &cfg.messaging {
                Some(ms) => {
                    if messaging_declared(ms, &reference) {
                        None
                    } else {
                        Some(String::from_str("Messaging config '").concat(reference.as_str())
                            .concat("' referenced by plugin ").concat(p.name.as_str()).concat(" not found"))
                    }
                },
                None => Some(String::from_str("Messaging plugin ").concat(p.name.as_str()).concat(" references '")
                    .concat(reference.as_str()).concat("' but no messaging configs defined")),
            }
        },
        PluginType::Wasm => Some(String::from_str("WASM plugins are not supported yet")),
    }
}

fn plugins_issue_exec(cfg: &ProxyConfig) -> (r: Option<String>)
    ensures
        match r {
            Some(m) => plugins_issue(*cfg, opt_seq(cfg.plugins), 0) == Some(m@),
            None => plugins_issue(*cfg, opt_seq(cfg.plugins), 0).is_none(),
        },
{
    match &cfg.plugins {
        Some(ps) => {
            let mut i: usize = 0;
            while i < ps.len()
                invariant
                    i <= ps.len(),
                    cfg.plugins == Some(*ps),
                    plugins_issue(*cfg, ps@, 0) == plugins_issue(*cfg, ps@, i as int),
                decreases ps.len() - i,
            {
                match plugin_issue_exec(cfg, &ps[i]) {
                    Some(m) => {
                        return Some(m);
                    },
                    None => {},
                }
                i = i + 1;
            }
            None
        },
        None => None,
    }
}

fn validate_config(cfg: &ProxyConfig, ip_ok: &Vec<bool>) -> (r: Option<String>)
    ensures
        match r {
            Some(m) => spec_validate(*cfg, ip_ok@) == Some(m@),
            None => spec_validate(*cfg, ip_ok@).is_none(),
        },
{
    let names = service_name_list(cfg);
    if let Some(m) = dup_issue_exec("Service name ", &names) {
        return Some(m);
    }
    let names = route_name_list(cfg);
    if let Some(m) = dup_issue_exec("Route name ", &names) {
        return Some(m);
    }
    let names = tls_domain_list(cfg);
    if let Some(m) = dup_issue_exec("TLS domain ", &names) {
        return Some(m);
    }
    let names = plugin_name_list(cfg);
    if let Some(m) = dup_issue_exec("Plugin name ", &names) {
        return Some(m);
    }
    match &cfg.messaging {
        Some(ms) => {
            if let Some(m) = messaging_issue_exec(ms) {
                return Some(m);
            }
        },
        None => {},
    }
    let names = group_name_list(cfg);
    if let Some(m) = dup_issue_exec("Middleware group name ", &names) {
        return Some(m);
    }
    if let Some(m) = services_issue_exec(cfg, ip_ok) {
        return Some(m);
    }
    plugins_issue_exec(cfg)
}

/// Addresses of the endpoints of the HTTP services, in the order `validate` checks them.
pub fn http_endpoint_ips(cfg: &ProxyConfig) -> (r: Vec<String>)
    ensures
        strings_view(r@) == spec_http_endpoint_ips(opt_seq(cfg.services)),
{
    let mut out: Vec<String> = Vec::new();
    match &cfg.services {
        Some(svcs) => {
            let mut i: usize = 0;
            assert(spec_http_endpoint_ips(svcs@.subrange(0, 0)) =~= Seq::<Seq<char>>::empty());
            while i < svcs.len()
                invariant
                    i <= svcs.len(),
                    strings_view(out@) == spec_http_endpoint_ips(svcs@.subrange(0, i as int)),
                decreases svcs.len() - i,
            {
                let ghost before = strings_view(out@);
                let s = &svcs[i];
                if s.service_type == ServiceType::Http {
                    match &s.endpoints {
                        Some(eps) => {
                            let mut ips: Vec<String> = Vec::new();
                            let mut j: usize = 0;
                            while j < eps.len()
                                invariant
                                    j <= eps.len(),
                                    ips@.len() == j,
                                    forall|k: int| 0 <= k < j ==> #[trigger] ips@[k]@ == eps@[k].ip@,
                                decreases eps.len() - j,
                            {
                                ips.push(eps[j].ip.clone());
                                j = j + 1;
                            }
                            assert(strings_view(ips@) =~= endpoint_ip_list(eps@));
                            push_strings(&mut out, &ips);
                        },
                        None => {
                            assert(strings_view(out@) =~= before + Seq::<Seq<char>>::empty());
                        },
                    }
                } else {
                    assert(strings_view(out@) =~= before + Seq::<Seq<char>>::empty());
                }
                assert(svcs@.subrange(0, i + 1).drop_last() =~= svcs@.subrange(0, i as int));
                i = i + 1;
            }
            assert(svcs@.subrange(0, i as int) =~= svcs@);
        },
        None => {
            assert(strings_view(out@) =~= spec_http_endpoint_ips(opt_seq(cfg.services)));
        },
    }
    out
}

// ---------------------------------------------------------------------------
// Laws
// ---------------------------------------------------------------------------

pub proof fn lemma_first_dup_found(names: Seq<Seq<char>>, i: int, k: int, l: int)
    requires
        0 <= i <= l < names.len(),
        0 <= k < l,
        names[k] == names[l],
    ensures
        first_dup(names, i).is_some(),
    decreases l - i,
{
    if exists|x: int| 0 <= x < i && names[x] == names[i] {
    } else if i < l {
        lemma_first_dup_found(names, i + 1, k, l);
    } else {
        assert(names[k] == names[i]);
    }
}

/// Merging the files of a configuration directory never hides a clash: when two
/// files declare a service of the same name, the merged configuration is rejected.
pub proof fn law_merged_duplicate_service_rejected(a: ProxyConfig, b: ProxyConfig, merged: ProxyConfig, ip_ok: Seq<bool>, i: int, j: int)
    requires
        opt_view(merged.services) == opt_concat(a.services, b.services),
        0 <= i < opt_seq(a.services).len(),
        0 <= j < opt_seq(b.services).len(),
        opt_seq(a.services)[i].name@ == opt_seq(b.services)[j].name@,
    ensures
        spec_validate(merged, ip_ok).is_some(),
{
    let sa = opt_seq(a.services);
    let sb = opt_seq(b.services);
    let all = opt_seq(merged.services);
    assert(all == sa + sb);
    let names = service_names(merged);
    assert(names[i] == sa[i].name@);
    assert(names[sa.len() + j] == sb[j].name@);
    lemma_first_dup_found(names, 0, i, sa.len() + j);
}

/// Two routes of a configuration with the same name: the configuration is
/// rejected, whatever else it holds.
pub proof fn law_duplicate_route_rejected(cfg: ProxyConfig, ip_ok: Seq<bool>, i: int, j: int)
    requires
        0 <= i < j < opt_seq(cfg.routes).len(),
        opt_seq(cfg.routes)[i].name@ == opt_seq(cfg.routes)[j].name@,
    ensures
        spec_validate(cfg, ip_ok).is_some(),
{
    let names = route_names(cfg);
    assert(names[i] == opt_seq(cfg.routes)[i].name@);
    assert(names[j] == opt_seq(cfg.routes)[j].name@);
    lemma_first_dup_found(names, 0, i, j);
}

/// Two services of a configuration with the same name: the configuration is rejected.
pub proof fn law_duplicate_service_rejected(cfg: ProxyConfig, ip_ok: Seq<bool>, i: int, j: int)
    requires
        0 <= i < j < opt_seq(cfg.services).len(),
        opt_seq(cfg.services)[i].name@ == opt_seq(cfg.services)[j].name@,
    ensures
        spec_validate(cfg, ip_ok).is_some(),
{
    let names = service_names(cfg);
    assert(names[i] == opt_seq(cfg.services)[i].name@);
    assert(names[j] == opt_seq(cfg.services)[j].name@);
    lemma_first_dup_found(names, 0, i, j);
}

/// Two plugins of a configuration with the same name: the configuration is rejected.
pub proof fn law_duplicate_plugin_rejected(cfg: ProxyConfig, ip_ok: Seq<bool>, i: int, j: int)
    requires
        0 <= i < j < opt_seq(cfg.plugins).len(),
        opt_seq(cfg.plugins)[i].name@ == opt_seq(cfg.plugins)[j].name@,
    ensures
        spec_validate(cfg, ip_ok).is_some(),
{
    let names = plugin_names(cfg);
    assert(names[i] == opt_seq(cfg.plugins)[i].name@);
    assert(names[j] == opt_seq(cfg.plugins)[j].name@);
    lemma_first_dup_found(names, 0, i, j);
}

/// Two middleware groups of a configuration with the same name: the
/// configuration is rejected.
pub proof fn law_duplicate_middleware_group_rejected(cfg: ProxyConfig, ip_ok: Seq<bool>, i: int, j: int)
    requires
        0 <= i < j < opt_seq(cfg.middleware_groups).len(),
        opt_seq(cfg.middleware_groups)[i].0@ == opt_seq(cfg.middleware_groups)[j].0@,
    ensures
        spec_validate(cfg, ip_ok).is_some(),
{
    let names = group_names(opt_seq(cfg.middleware_groups));
    assert(names[i] == opt_seq(cfg.middleware_groups)[i].0@);
    assert(names[j] == opt_seq(cfg.middleware_groups)[j].0@);
    lemma_first_dup_found(names, 0, i, j);
}

/// A service the configuration cannot serve: an HTTP service without endpoints
/// or with an endpoint whose port is not set, or a plugin service without a plugin.
pub open spec fn unservable_service(s: ServiceItem) -> bool {
    ||| s.service_type == ServiceType::Http && s.endpoints.is_none()
    ||| s.service_type == ServiceType::Http && s.endpoints.is_some()
            && exists|k: int| 0 <= k < s.endpoints.unwrap()@.len() && (#[trigger] s.endpoints.unwrap()@[k]).port == 0
    ||| s.service_type == ServiceType::Plugin && s.plugin.is_none()
}

proof fn lemma_endpoints_port_issue(eps: Seq<Endpoint>, j: int, off: int, ip_ok: Seq<bool>, k: int)
    requires
        0 <= j <= k < eps.len(),
        eps[k].port == 0,
    ensures
        endpoints_issue(eps, j, off, ip_ok).is_some(),
    decreases k - j,
{
    if j < k {
        lemma_endpoints_port_issue(eps, j + 1, off, ip_ok, k);
    }
}

proof fn lemma_services_issue_found(cfg: ProxyConfig, svcs: Seq<ServiceItem>, i: int, off: int, ip_ok: Seq<bool>, k: int)
    requires
        0 <= i <= k < svcs.len(),
        unservable_service(svcs[k]),
    ensures
        services_issue(cfg, svcs, i, off, ip_ok).is_some(),
    decreases k - i,
{
    if i < k {
        lemma_services_issue_found(cfg, svcs, i + 1, off + http_count(svcs[i]), ip_ok, k);
    } else {
        let s = svcs[k];
        if s.service_type == ServiceType::Http && s.endpoints.is_some() {
            let eps = s.endpoints.unwrap()@;
            let e = choose|e: int| 0 <= e < eps.len() && (#[trigger] eps[e]).port == 0;
            lemma_endpoints_port_issue(eps, 0, off, ip_ok, e);
        }
    }
}

/// A configuration with a service it cannot serve (an HTTP service without
/// endpoints or with an endpoint of port 0, a plugin service without a plugin)
/// is rejected.
pub proof fn law_unservable_service_rejected(cfg: ProxyConfig, ip_ok: Seq<bool>, k: int)
    requires
        0 <= k < opt_seq(cfg.services).len(),
        unservable_service(opt_seq(cfg.services)[k]),
    ensures
        spec_validate(cfg, ip_ok).is_some(),
{
    lemma_services_issue_found(cfg, opt_seq(cfg.services), 0, 0, ip_ok, k);
}

/// A plugin the configuration cannot load: a WASM plugin, an FFI plugin without
/// a file, a messaging plugin whose reference is empty or names no messaging config.
pub open spec fn unloadable_plugin(cfg: ProxyConfig, p: PluginItem) -> bool {
    ||| p.plugin_type == PluginType::Wasm
    ||| p.plugin_type == PluginType::Ffi && (p.file.is_none() || p.file.unwrap()@.len() == 0)
    ||| p.plugin_type == PluginType::Messaging && {
            let reference = match p.messaging { Some(m) => trim_ws(m@), None => Seq::empty() };
            forall|k: int| 0 <= k < opt_seq(cfg.messaging).len() ==> (#[trigger] opt_seq(cfg.messaging)[k]).name@ != reference
        }
}

proof fn lemma_plugins_issue_found(cfg: ProxyConfig, ps: Seq<PluginItem>, i: int, k: int)
    requires
        0 <= i <= k < ps.len(),
        unloadable_plugin(cfg, ps[k]),
    ensures
        plugins_issue(cfg, ps, i).is_some(),
    decreases k - i,
{
    if i < k {
        lemma_plugins_issue_found(cfg, ps, i + 1, k);
    } else {
        let p = ps[k];
        if p.plugin_type == PluginType::Messaging {
            let reference = match p.messaging { Some(m) => trim_ws(m@), None => Seq::<char>::empty() };
            if reference.len() > 0 {
                match cfg.messaging {
                    Some(ms) => {
                        assert(opt_seq(cfg.messaging) == ms@);
                        assert(!(exists|x: int| 0 <= x < ms@.len() && ms@[x].name@ == reference));
                    },
                    None => {},
                }
            }
        }
    }
}

/// A configuration with a plugin it cannot load (WASM, FFI without a file,
/// messaging without a known messaging config) is rejected.
pub proof fn law_unloadable_plugin_rejected(cfg: ProxyConfig, ip_ok: Seq<bool>, k: int)
    requires
        0 <= k < opt_seq(cfg.plugins).len(),
        unloadable_plugin(cfg, opt_seq(cfg.plugins)[k]),
    ensures
        spec_validate(cfg, ip_ok).is_some(),
{
    lemma_plugins_issue_found(cfg, opt_seq(cfg.plugins), 0, k);
}

proof fn lemma_messaging_issue_found(ms: Seq<MessagingConfig>, i: int, k: int)
    requires
        0 <= i <= k < ms.len(),
        ms[k].servers@.len() == 0,
    ensures
        messaging_issue(ms, i).is_some(),
    decreases k - i,
{
    if i < k {
        lemma_messaging_issue_found(ms, i + 1, k);
    }
}

/// A configuration with a messaging config without servers is rejected.
pub proof fn law_messaging_without_servers_rejected(cfg: ProxyConfig, ip_ok: Seq<bool>, k: int)
    requires
        0 <= k < opt_seq(cfg.messaging).len(),
        opt_seq(cfg.messaging)[k].servers@.len() == 0,
    ensures
        spec_validate(cfg, ip_ok).is_some(),
{
    lemma_messaging_issue_found(opt_seq(cfg.messaging), 0, k);
}

proof fn lemma_group_find(g: Seq<(String, Vec<MiddlewareItem>)>, k: Seq<char>, j: int)
    ensures
        group_find(g, k, j) matches Some(x) ==> j <= x < g.len() && g[x].0@ == k,
    decreases g.len() - j,
{
    if 0 <= j < g.len() && g[j].0@ != k {
        lemma_group_find(g, k, j + 1);
    }
}

proof fn lemma_group_put_names(g: Seq<(String, Vec<MiddlewareItem>)>, e: (String, Vec<MiddlewareItem>))
    ensures
        group_names(group_put(g, e)).to_set() == group_names(g).to_set().insert(e.0@),
{
    lemma_group_find(g, e.0@, 0);
    let r = group_put(g, e);
    assert forall|n: Seq<char>| group_names(r).to_set().contains(n) <==> group_names(g).to_set().insert(e.0@).contains(n) by {
        match group_find(g, e.0@, 0) {
            Some(j) => {
                if group_names(r).to_set().contains(n) {
                    let x = choose|x: int| 0 <= x < group_names(r).len() && group_names(r)[x] == n;
                    if x != j {
                        assert(group_names(g)[x] == n);
                    }
                }
                if group_names(g).to_set().contains(n) {
                    let x = choose|x: int| 0 <= x < group_names(g).len() && group_names(g)[x] == n;
                    if x != j {
                        assert(group_names(r)[x] == n);
                    } else {
                        assert(group_names(r)[j] == n);
                    }
                }
                if n == e.0@ {
                    assert(group_names(r)[j] == n);
                }
            },
            None => {
                if group_names(r).to_set().contains(n) {
                    let x = choose|x: int| 0 <= x < group_names(r).len() && group_names(r)[x] == n;
                    if x < g.len() {
                        assert(group_names(g)[x] == n);
                    }
                }
                if group_names(g).to_set().contains(n) {
                    let x = choose|x: int| 0 <= x < group_names(g).len() && group_names(g)[x] == n;
                    assert(group_names(r)[x] == n);
                }
                if n == e.0@ {
                    assert(group_names(r)[g.len() as int] == n);
                }
            },
        }
    }
    assert(group_names(r).to_set() =~= group_names(g).to_set().insert(e.0@));
}

proof fn lemma_groups_put_all_names(g: Seq<(String, Vec<MiddlewareItem>)>, other: Seq<(String, Vec<MiddlewareItem>)>, i: int)
    requires
        0 <= i <= other.len(),
    ensures
        group_names(groups_put_all(g, other, i)).to_set()
            == group_names(g).to_set().union(group_names(other.subrange(i, other.len() as int)).to_set()),
    decreases other.len() - i,
{
    if i < other.len() {
        lemma_groups_put_all_names(group_put(g, other[i]), other, i + 1);
        lemma_group_put_names(g, other[i]);
        let tail = group_names(other.subrange(i, other.len() as int));
        let tail1 = group_names(other.subrange(i + 1, other.len() as int));
        assert(tail =~= seq![other[i].0@] + tail1);
        assert forall|n: Seq<char>| tail.to_set().contains(n) <==> tail1.to_set().insert(other[i].0@).contains(n) by {
            if tail.to_set().contains(n) {
                let x = choose|x: int| 0 <= x < tail.len() && tail[x] == n;
                if x > 0 {
                    assert(tail1[x - 1] == n);
                }
            }
            if tail1.to_set().contains(n) {
                let x = choose|x: int| 0 <= x < tail1.len() && tail1[x] == n;
                assert(tail[x + 1] == n);
            }
            if n == other[i].0@ {
                assert(tail[0] == n);
            }
        }
        assert(tail.to_set() =~= tail1.to_set().insert(other[i].0@));
        assert(group_names(g).to_set().insert(other[i].0@).union(tail1.to_set())
            =~= group_names(g).to_set().union(tail.to_set()));
    } else {
        assert(group_names(other.subrange(i, other.len() as int)).to_set() =~= Set::<Seq<char>>::empty());
        assert(group_names(g).to_set().union(Set::<Seq<char>>::empty()) =~= group_names(g).to_set());
    }
}

/// Merging keeps every middleware group name of both configurations and adds
/// no other: the merged names are those of the first and of the second.
pub proof fn law_merged_group_names(a: Option<Vec<(String, Vec<MiddlewareItem>)>>, b: Option<Vec<(String, Vec<MiddlewareItem>)>>)
    ensures
        group_names(opt_seq_of(merged_groups(a, b))).to_set()
            == group_names(opt_seq_of(opt_view(a))).to_set().union(group_names(opt_seq_of(opt_view(b))).to_set()),
{
    match (a, b) {
        (Some(x), Some(y)) => {
            lemma_groups_put_all_names(x@, y@, 0);
            assert(y@.subrange(0, y@.len() as int) =~= y@);
        },
        (Some(x), None) => {
            assert(group_names(Seq::<(String, Vec<MiddlewareItem>)>::empty()).to_set() =~= Set::<Seq<char>>::empty());
            assert(group_names(x@).to_set().union(Set::<Seq<char>>::empty()) =~= group_names(x@).to_set());
        },
        (None, Some(y)) => {
            assert(group_names(Seq::<(String, Vec<MiddlewareItem>)>::empty()).to_set() =~= Set::<Seq<char>>::empty());
            assert(Set::<Seq<char>>::empty().union(group_names(y@).to_set()) =~= group_names(y@).to_set());
        },
        (None, None) => {
            assert(group_names(Seq::<(String, Vec<MiddlewareItem>)>::empty()).to_set() =~= Set::<Seq<char>>::empty());
            assert(Set::<Seq<char>>::empty().union(Set::<Seq<char>>::empty()) =~= Set::<Seq<char>>::empty());
        },
    }
}

/// The entries of an optional list (none when absent).
pub open spec fn opt_seq_of<T>(o: Option<Seq<T>>) -> Seq<T> {
    match o {
        Some(s) => s,
        None => Seq::empty(),
    }
}

} // verus!
