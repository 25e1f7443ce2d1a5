//! Upstream services: how each HTTP service's load balancer is set up, and the
//! lookup of a service by name through a small LRU cache.
use vstd::prelude::*;
use vstd::string::*;
use crate::config::proxy::{trim_exec, trim_ws};
use crate::error::NylonError;
use crate::text::{parse_u64, spec_parse_u64, str_chars, u64_to_decimal, decimal_string, sub_chars};
use crate::text_map::TextMap;
use crate::types::services::{Algorithm, Endpoint, HealthCheck, ServiceItem, ServiceType};

verus! {

/// `s` without one trailing `s`, if it has one.
pub open spec fn strip_seconds_suffix(t: Seq<char>) -> Seq<char> {
    if t.len() > 0 && t.last() == 's' { t.drop_last() } else { t }
}

/// A duration like `5s` (or `5`) in seconds.
pub open spec fn spec_parse_seconds(input: Seq<char>) -> Option<nat> {
    spec_parse_u64(strip_seconds_suffix(trim_ws(input)))
}

/// Parses a duration like `5s` (or just `5`) into seconds.
pub fn parse_seconds(input: &str) -> (r: Option<u64>)
    ensures
        match r {
            Some(n) => spec_parse_seconds(input@) == Some(n as nat),
            None => spec_parse_seconds(input@).is_none(),
        },
{
    let trimmed = trim_exec(&String::from_str(input));
    let chars = str_chars(trimmed.as_str());
    if chars.len() > 0 && chars[chars.len() - 1] == 's' {
        let body = sub_chars(&chars, 0, chars.len() - 1);
        assert(body@ =~= chars@.drop_last());
        parse_u64(&body)
    } else {
        parse_u64(&chars)
    }
}

/// How the health of a service's backends is checked.
#[derive(Debug)]
pub struct HealthCheckPlan {
    pub path: String,
    pub host: String,
    pub timeout_secs: u64,
    pub interval_secs: u64,
    pub consecutive_success: u32,
    pub consecutive_failure: u32,
}

/// The load balancer of one HTTP service, as it is to be built.
#[derive(Debug)]
pub struct BackendPlan {
    pub name: String,
    pub algorithm: Option<Algorithm>,
    /// Each backend: `ip:port` and its weight.
    pub backends: Vec<(String, u32)>,
    pub health_check: Option<HealthCheckPlan>,
}

/// `ip:port`
pub open spec fn endpoint_text(e: Endpoint) -> Seq<char> {
    e.ip@ + ":"@ + decimal_string(e.port as nat)
}

/// The host the health checks present: the first backend's address, else 127.0.0.1.
pub open spec fn spec_check_host(service: ServiceItem) -> Seq<char> {
    match service.endpoints {
        Some(eps) => if eps@.len() > 0 { eps@[0].ip@ } else { "127.0.0.1"@ },
        None => "127.0.0.1"@,
    }
}

/// The health check of a service, when it has one that is enabled: timeout 1 s and
/// interval 5 s unless given.
pub open spec fn plan_matches_check(p: Option<HealthCheckPlan>, service: ServiceItem) -> bool {
    match service.health_check {
        Some(hc) => if hc.enabled {
            p matches Some(c) && {
                &&& c.path@ == hc.path@
                &&& c.host@ == spec_check_host(service)
                &&& c.timeout_secs == match spec_parse_seconds(hc.timeout@) { Some(n) => n, None => 1 }
                &&& c.interval_secs == match spec_parse_seconds(hc.interval@) { Some(n) => n, None => 5 }
                &&& c.consecutive_success == hc.healthy_threshold
                &&& c.consecutive_failure == hc.unhealthy_threshold
            }
        } else {
            p.is_none()
        },
        None => p.is_none(),
    }
}

/// `p` is the load balancer plan of `service`: its name and algorithm, every
/// endpoint as `ip:port` (weight 1 unless given), and its health check.
#[verifier::opaque]
pub open spec fn is_plan_of(p: BackendPlan, service: ServiceItem) -> bool {
    &&& p.name@ == service.name@
    &&& p.algorithm == service.algorithm
    &&& p.backends@.len() == endpoint_count(service)
    &&& forall|i: int| 0 <= i < p.backends@.len() ==> {
            &&& (#[trigger] p.backends@[i]).0@ == endpoint_text(service.endpoints.unwrap()@[i])
            &&& p.backends@[i].1 == match service.endpoints.unwrap()@[i].weight { Some(w) => w, None => 1 }
        }
    &&& plan_matches_check(p.health_check, service)
}

/// The number of endpoints of a service.
pub open spec fn endpoint_count(s: ServiceItem) -> nat {
    match s.endpoints {
        Some(eps) => eps@.len(),
        None => 0,
    }
}

/// The number of endpoint addresses of the HTTP services among the first `i`.
pub open spec fn addresses_before(svcs: Seq<ServiceItem>, i: int) -> nat
    decreases i,
{
    if i <= 0 {
        0
    } else {
        addresses_before(svcs, i - 1) + if svcs[i - 1].service_type == ServiceType::Http { endpoint_count(svcs[i - 1]) } else { 0 }
    }
}

/// The number of HTTP services among the first `i`.
pub open spec fn http_before(svcs: Seq<ServiceItem>, i: int) -> nat
    decreases i,
{
    if i <= 0 {
        0
    } else {
        http_before(svcs, i - 1) + if svcs[i - 1].service_type == ServiceType::Http { 1nat } else { 0nat }
    }
}

/// The first parse error among the addresses `lo..hi`; an address with no entry
/// in `errs` parsed.
pub open spec fn first_error_in(errs: Seq<Option<String>>, lo: int, hi: int) -> Option<Seq<char>>
    decreases hi - lo,
{
    if lo >= hi {
        None
    } else if 0 <= lo < errs.len() && errs[lo] is Some {
        Some(errs[lo].unwrap()@)
    } else {
        first_error_in(errs, lo + 1, hi)
    }
}

/// The first reason the HTTP services from the `i`-th on cannot be set up: service
/// by service, an endpoint address that does not parse (`errs[k]` is the parse
/// error of the `k`-th address, see `http_addresses`), then a missing algorithm.
pub open spec fn store_error(svcs: Seq<ServiceItem>, errs: Seq<Option<String>>, i: int) -> Option<Seq<char>>
    decreases svcs.len() - i,
{
    if i < 0 || i >= svcs.len() {
        None
    } else if svcs[i].service_type != ServiceType::Http {
        store_error(svcs, errs, i + 1)
    } else {
        let k = addresses_before(svcs, i) as int;
        match first_error_in(errs, k, k + endpoint_count(svcs[i])) {
            Some(e) => Some("Unable to parse address: "@ + e),
            None => if svcs[i].algorithm.is_none() {
                Some("Unknown algorithm: None"@)
            } else {
                store_error(svcs, errs, i + 1)
            },
        }
    }
}

/// The endpoint addresses (`ip:port`) of the HTTP services, service by service.
pub fn http_addresses(services: &Vec<ServiceItem>) -> (r: Vec<String>)
    ensures
        r@.len() == addresses_before(services@, services@.len() as int),
        forall|i: int, j: int| 0 <= i < services@.len() && services@[i].service_type == ServiceType::Http
            && 0 <= j < endpoint_count(services@[i])
            ==> (#[trigger] r@[addresses_before(services@, i) + j])@ == endpoint_text(#[trigger] services@[i].endpoints.unwrap()@[j]),
{
    proof {
        reveal_strlit(":");
    }
    let mut out: Vec<String> = Vec::new();
    let mut i: usize = 0;
    while i < services.len()
        invariant
            i <= services@.len(),
            out@.len() == addresses_before(services@, i as int),
            forall|x: int, j: int| 0 <= x < i && services@[x].service_type == ServiceType::Http
                && 0 <= j < endpoint_count(services@[x])
                ==> (#[trigger] out@[addresses_before(services@, x) + j])@ == endpoint_text(#[trigger] services@[x].endpoints.unwrap()@[j]),
            forall|x: int| 0 <= x <= i ==> #[trigger] addresses_before(services@, x) <= out@.len(),
        decreases services.len() - i,
    {
        let ghost before = out@;
        if services[i].service_type == ServiceType::Http {
            if let Some(eps) = &services[i].endpoints {
                let mut j: usize = 0;
                while j < eps.len()
                    invariant
                        j <= eps@.len(),
                        services@[i as int].endpoints == Some(*eps),
                        out@.len() == before.len() + j,
                        forall|y: int| 0 <= y < before.len() ==> out@[y] == before[y],
                        forall|y: int| 0 <= y < j ==> (#[trigger] out@[before.len() + y])@ == endpoint_text(eps@[y]),
                    decreases eps.len() - j,
                {
                    out.push(eps[j].ip.clone().concat(":").concat(u64_to_decimal(eps[j].port as u64).as_str()));
                    j = j + 1;
                }
            }
        }
        proof {
            assert(addresses_before(services@, i + 1) == addresses_before(services@, i as int)
                + if services@[i as int].service_type == ServiceType::Http { endpoint_count(services@[i as int]) } else { 0 });
            assert forall|x: int, j: int| 0 <= x < i + 1 && services@[x].service_type == ServiceType::Http
                && 0 <= j < endpoint_count(services@[x])
                implies (#[trigger] out@[addresses_before(services@, x) + j])@ == endpoint_text(#[trigger] services@[x].endpoints.unwrap()@[j]) by {
                if x < i {
                    assert(addresses_before(services@, x) + j < addresses_before(services@, x + 1));
                    lemma_addresses_mono(services@, x + 1, i as int);
                    assert(out@[addresses_before(services@, x) + j] == before[addresses_before(services@, x) + j]);
                }
            }
            assert forall|x: int| 0 <= x <= i + 1 implies #[trigger] addresses_before(services@, x) <= out@.len() by {
                lemma_addresses_mono(services@, x, i + 1);
            }
        }
        i = i + 1;
    }
    out
}

proof fn lemma_addresses_mono(svcs: Seq<ServiceItem>, a: int, b: int)
    requires
        a <= b,
    ensures
        addresses_before(svcs, a) <= addresses_before(svcs, b),
    decreases b - a,
{
    if a < b {
        lemma_addresses_mono(svcs, a, b - 1);
    }
}

proof fn lemma_first_error_clip(errs: Seq<Option<String>>, lo: int, hi: int)
    requires
        0 <= lo,
    ensures
        first_error_in(errs, lo, hi) == first_error_in(errs,
            if lo < errs.len() { lo } else { errs.len() as int },
            if hi < errs.len() { hi } else { errs.len() as int }),
    decreases hi - lo,
{
    if lo < hi && lo < errs.len() {
        lemma_first_error_clip(errs, lo + 1, hi);
    } else if lo < hi {
        lemma_first_error_none(errs, lo, hi);
    }
}

proof fn lemma_first_error_none(errs: Seq<Option<String>>, lo: int, hi: int)
    requires
        lo >= errs.len(),
    ensures
        first_error_in(errs, lo, hi).is_none(),
    decreases hi - lo,
{
    if lo < hi {
        lemma_first_error_none(errs, lo + 1, hi);
    }
}

/// The first parse error among the addresses `lo..hi`, all within `errs`.
fn first_address_error(errs: &Vec<Option<String>>, lo: usize, hi: usize) -> (r: Option<String>)
    requires
        lo <= hi <= errs@.len(),
    ensures
        match r {
            Some(e) => first_error_in(errs@, lo as int, hi as int) == Some(e@),
            None => first_error_in(errs@, lo as int, hi as int).is_none(),
        },
{
    let mut j: usize = lo;
    while j < hi
        invariant
            lo <= j <= hi <= errs@.len(),
            first_error_in(errs@, lo as int, hi as int) == first_error_in(errs@, j as int, hi as int),
        decreases hi - j,
    {
        if let Some(e) = &errs[j] {
            return Some(e.clone());
        }
        j = j + 1;
    }
    None
}

/// The first reason the HTTP services cannot be set up (see `store_error`).
pub fn service_setup_error(services: &Vec<ServiceItem>, addr_errors: &Vec<Option<String>>) -> (r: Option<String>)
    ensures
        match r {
            Some(m) => store_error(services@, addr_errors@, 0) == Some(m@),
            None => store_error(services@, addr_errors@, 0).is_none(),
        },
{
    proof {
        reveal_strlit("Unable to parse address: ");
        reveal_strlit("Unknown algorithm: None");
    }
    let len = addr_errors.len();
    let mut k: usize = 0;
    let mut i: usize = 0;
    while i < services.len()
        invariant
            i <= services@.len(),
            len == addr_errors@.len(),
            k == if addresses_before(services@, i as int) < len { addresses_before(services@, i as int) } else { len as nat },
            store_error(services@, addr_errors@, 0) == store_error(services@, addr_errors@, i as int),
        decreases services.len() - i,
    {
        let ghost a = addresses_before(services@, i as int);
        assert(addresses_before(services@, i + 1) == a
            + if services@[i as int].service_type == ServiceType::Http { endpoint_count(services@[i as int]) } else { 0 });
        if services[i].service_type == ServiceType::Http {
            let n: usize = match &services[i].endpoints {
                Some(eps) => eps.len(),
                None => 0,
            };
            let end: usize = if n >= len - k { len } else { k + n };
            proof {
                lemma_first_error_clip(addr_errors@, a as int, a + n);
            }
            match first_address_error(addr_errors, k, end) {
                Some(e) => {
                    return Some(String::from_str("Unable to parse address: ").concat(e.as_str()));
                },
                None => {},
            }
            if services[i].algorithm.is_none() {
                return Some(String::from_str("Unknown algorithm: None"));
            }
            k = end;
        }
        i = i + 1;
    }
    None
}

/// The load balancer plans of the HTTP services, in order; fails with the first
/// reason one of them cannot be set up (see `store_error`).
pub fn plan_services(services: &Vec<ServiceItem>, addr_errors: &Vec<Option<String>>) -> (r: Result<Vec<BackendPlan>, NylonError>)
    ensures
        match store_error(services@, addr_errors@, 0) {
            Some(m) => r matches Err(NylonError::ConfigError(e)) && e@ == m,
            None => r matches Ok(v) && v@.len() == http_before(services@, services@.len() as int)
                && forall|i: int| 0 <= i < services@.len() && (#[trigger] services@[i]).service_type == ServiceType::Http
                    ==> is_plan_of(v@[http_before(services@, i) as int], services@[i]),
        },
{
    if let Some(m) = service_setup_error(services, addr_errors) {
        return Err(NylonError::ConfigError(m));
    }
    Ok(http_plans(services))
}

/// The load balancer plans of the HTTP services, in order.
fn http_plans(services: &Vec<ServiceItem>) -> (r: Vec<BackendPlan>)
    ensures
        r@.len() == http_before(services@, services@.len() as int),
        forall|i: int| 0 <= i < services@.len() && (#[trigger] services@[i]).service_type == ServiceType::Http
            ==> is_plan_of(r@[http_before(services@, i) as int], services@[i]),
{
    let mut plans: Vec<BackendPlan> = Vec::new();
    let mut i: usize = 0;
    while i < services.len()
        invariant
            i <= services@.len(),
            plans@.len() == http_before(services@, i as int),
            forall|x: int| 0 <= x < i && (#[trigger] services@[x]).service_type == ServiceType::Http
                ==> is_plan_of(plans@[http_before(services@, x) as int], services@[x]),
            forall|x: int| 0 <= x <= i ==> #[trigger] http_before(services@, x) <= plans@.len(),
        decreases services.len() - i,
    {
        assert(http_before(services@, i + 1) == http_before(services@, i as int)
            + if services@[i as int].service_type == ServiceType::Http { 1nat } else { 0nat });
        let ghost before = plans@;
        if services[i].service_type == ServiceType::Http {
            plans.push(backend_plan(&services[i]));
        }
        proof {
            assert forall|x: int| 0 <= x < i + 1 && (#[trigger] services@[x]).service_type == ServiceType::Http
                implies is_plan_of(plans@[http_before(services@, x) as int], services@[x]) by {
                if x < i {
                    lemma_http_before_mono(services@, x + 1, i as int);
                    assert(plans@[http_before(services@, x) as int] == before[http_before(services@, x) as int]);
                }
            }
            assert forall|x: int| 0 <= x <= i + 1 implies #[trigger] http_before(services@, x) <= plans@.len() by {
                lemma_http_before_mono(services@, x, i + 1);
            }
        }
        i = i + 1;
    }
    plans
}

proof fn lemma_http_before_mono(svcs: Seq<ServiceItem>, a: int, b: int)
    requires
        a <= b,
    ensures
        http_before(svcs, a) <= http_before(svcs, b),
    decreases b - a,
{
    if a < b {
        lemma_http_before_mono(svcs, a, b - 1);
    }
}

/// The load balancer plan of an HTTP service: every endpoint (weight 1 unless
/// given), and its health check.
pub fn backend_plan(service: &ServiceItem) -> (r: BackendPlan)
    ensures
        is_plan_of(r, *service),
{
    proof {
        reveal_strlit(":");
        reveal_strlit("127.0.0.1");
    }
    let mut backends: Vec<(String, u32)> = Vec::new();
    if let Some(eps) = &service.endpoints {
        let mut i: usize = 0;
        while i < eps.len()
            invariant
                i <= eps@.len(),
                service.endpoints == Some(*eps),
                backends@.len() == i,
                forall|x: int| 0 <= x < i ==> {
                    &&& (#[trigger] backends@[x]).0@ == endpoint_text(eps@[x])
                    &&& backends@[x].1 == match eps@[x].weight { Some(w) => w, None => 1 }
                },
            decreases eps.len() - i,
        {
            let text = eps[i].ip.clone().concat(":").concat(u64_to_decimal(eps[i].port as u64).as_str());
            let weight = match eps[i].weight {
                Some(w) => w,
                None => 1,
            };
            backends.push((text, weight));
            i = i + 1;
        }
    }
    let host = match &service.endpoints {
        Some(eps) => if eps.len() > 0 { eps[0].ip.clone() } else { String::from_str("127.0.0.1") },
        None => String::from_str("127.0.0.1"),
    };
    let health_check = match &service.health_check {
        Some(hc) => if hc.enabled {
            let timeout_secs = match parse_seconds(hc.timeout.as_str()) {
                Some(n) => n,
                None => 1,
            };
            let interval_secs = match parse_seconds(hc.interval.as_str()) {
                Some(n) => n,
                None => 5,
            };
            Some(HealthCheckPlan {
                path: hc.path.clone(),
                host,
                timeout_secs,
                interval_secs,
                consecutive_success: hc.healthy_threshold,
                consecutive_failure: hc.unhealthy_threshold,
            })
        } else {
            None
        },
        None => None,
    };
    let r = BackendPlan { name: service.name.clone(), algorithm: service.algorithm, backends, health_check };
    proof {
        reveal(is_plan_of);
    }
    r
}

/// The algorithm a plan balances with; a plan without one is refused.
pub fn plan_algorithm(plan: &BackendPlan) -> (r: Result<Algorithm, NylonError>)
    ensures
        match plan.algorithm {
            Some(a) => r == Ok::<Algorithm, NylonError>(a),
            None => r matches Err(NylonError::ConfigError(m)) && m@ == "Unknown algorithm: None"@,
        },
{
    match plan.algorithm {
        Some(a) => Ok(a),
        None => {
            proof { reveal_strlit("Unknown algorithm: None"); }
            Err(NylonError::ConfigError(String::from_str("Unknown algorithm: None")))
        },
    }
}

#[verifier::external_type_specification]
#[verifier::external_body]
#[verifier::reject_recursive_types(K)]
#[verifier::reject_recursive_types(V)]
#[verifier::reject_recursive_types(S)]
pub struct ExLruCache<K, V, S>(lru::LruCache<K, V, S>);

#[verifier::external_type_specification]
#[verifier::external_body]
pub struct ExLruHasher(lru::DefaultHasher);

/// The entries of a cache, most recently used first.
pub uninterp spec fn lru_entries(c: lru::LruCache<String, usize>) -> Seq<(Seq<char>, usize)>;

/// The number of entries a cache holds at most.
pub uninterp spec fn lru_capacity(c: lru::LruCache<String, usize>) -> nat;

/// The first entry of key `k`.
pub open spec fn lru_find(e: Seq<(Seq<char>, usize)>, k: Seq<char>) -> Option<int>
    decreases e.len(),
{
    if e.len() == 0 {
        None
    } else if e[0].0 == k {
        Some(0)
    } else {
        match lru_find(e.drop_first(), k) {
            Some(i) => Some(i + 1),
            None => None,
        }
    }
}

/// Calls `lru::LruCache::new`: an empty cache of capacity `cap`.
#[verifier::external_body]
fn lru_new(cap: usize) -> (r: lru::LruCache<String, usize>)
    requires
        cap > 0,
    ensures
        lru_entries(r) == Seq::<(Seq<char>, usize)>::empty(),
        lru_capacity(r) == cap,
{
    lru::LruCache::new(std::num::NonZeroUsize::new(cap).unwrap())
}

/// Calls `lru::LruCache::get`: the value of `key`, whose entry becomes the most
/// recently used.
#[verifier::external_body]
fn lru_get(c: &mut lru::LruCache<String, usize>, key: &str) -> (r: Option<usize>)
    ensures
        lru_capacity(*final(c)) == lru_capacity(*old(c)),
        match lru_find(lru_entries(*old(c)), key@) {
            Some(i) => r == Some(lru_entries(*old(c))[i].1)
                && lru_entries(*final(c)) == seq![lru_entries(*old(c))[i]] + lru_entries(*old(c)).remove(i),
            None => r.is_none() && lru_entries(*final(c)) == lru_entries(*old(c)),
        },
{
    c.get(key).copied()
}

/// Calls `lru::LruCache::put`: the entry of `key` becomes the most recently used
/// with value `v`; a new key in a full cache pushes out the least recently used.
/// The old value of the key, if it had one, is returned.
#[verifier::external_body]
fn lru_put(c: &mut lru::LruCache<String, usize>, key: String, v: usize) -> (r: Option<usize>)
    ensures
        lru_capacity(*final(c)) == lru_capacity(*old(c)),
        match lru_find(lru_entries(*old(c)), key@) {
            Some(i) => r == Some(lru_entries(*old(c))[i].1)
                && lru_entries(*final(c)) == seq![(key@, v)] + lru_entries(*old(c)).remove(i),
            None => r.is_none() && lru_entries(*final(c)) == seq![(key@, v)] + (
                if lru_entries(*old(c)).len() == lru_capacity(*old(c)) { lru_entries(*old(c)).drop_last() } else { lru_entries(*old(c)) }),
        },
{
    c.put(key, v)
}

/// Calls `lru::LruCache::clear`: no entry is left.
#[verifier::external_body]
fn lru_clear(c: &mut lru::LruCache<String, usize>)
    ensures
        lru_entries(*final(c)) == Seq::<(Seq<char>, usize)>::empty(),
        lru_capacity(*final(c)) == lru_capacity(*old(c)),
{
    c.clear()
}

/// Calls `lru::LruCache::len`: the number of entries.
#[verifier::external_body]
fn lru_len(c: &lru::LruCache<String, usize>) -> (r: usize)
    ensures
        r == lru_entries(*c).len(),
{
    c.len()
}

/// Calls `lru::LruCache::cap`: the capacity.
#[verifier::external_body]
fn lru_cap(c: &lru::LruCache<String, usize>) -> (r: usize)
    ensures
        r == lru_capacity(*c),
{
    c.cap().get()
}

proof fn lemma_lru_find(e: Seq<(Seq<char>, usize)>, k: Seq<char>)
    ensures
        lru_find(e, k) matches Some(i) ==> 0 <= i < e.len() && e[i].0 == k,
        lru_find(e, k).is_none() ==> forall|i: int| 0 <= i < e.len() ==> e[i].0 != k,
    decreases e.len(),
{
    if e.len() > 0 {
        lemma_lru_find(e.drop_first(), k);
        if lru_find(e, k).is_none() {
            assert forall|i: int| 0 <= i < e.len() implies e[i].0 != k by {
                if i > 0 {
                    assert(e[i] == e.drop_first()[i - 1]);
                }
            }
        }
    }
}

/// Every cached entry agrees with the directory.
pub open spec fn cache_agrees(e: Seq<(Seq<char>, usize)>, names: Map<Seq<char>, usize>) -> bool {
    forall|i: int| 0 <= i < e.len() ==> names.contains_key((#[trigger] e[i]).0) && names[e[i].0] == e[i].1
}

/// The HTTP services by name, and a cache of recent lookups.
pub struct BackendDirectory {
    names: Option<TextMap<usize>>,
    cache: lru::LruCache<String, usize>,
}

impl BackendDirectory {
    /// The cache holds at most 500 entries and agrees with the directory.
    pub closed spec fn wf(&self) -> bool {
        &&& lru_capacity(self.cache) == 500
        &&& match self.names {
                Some(n) => cache_agrees(lru_entries(self.cache), n@),
                None => lru_entries(self.cache).len() == 0,
            }
    }

    /// The services by name; `None` before any were stored.
    pub closed spec fn directory(&self) -> Option<Map<Seq<char>, usize>> {
        match self.names {
            Some(n) => Some(n@),
            None => None,
        }
    }

    pub closed spec fn cached(&self) -> Seq<(Seq<char>, usize)> {
        lru_entries(self.cache)
    }

    /// No services stored yet; an empty cache of 500 entries.
    pub fn new() -> (r: BackendDirectory)
        ensures
            r.wf(),
            r.directory().is_none(),
            r.cached().len() == 0,
    {
        BackendDirectory { names: None, cache: lru_new(500) }
    }

    /// Stores the HTTP services (the others are left out), each under its name and
    /// its position in `services`; a later service replaces an earlier one of the
    /// same name. The cache is emptied. `addr_errors[k]` is the error of parsing
    /// the `k`-th address of `http_addresses(services)`, if it did not parse.
    /// Fails, changing nothing, with the first reason a service cannot be set up
    /// (see `store_error`).
    pub fn store(&mut self, services: &Vec<ServiceItem>, addr_errors: &Vec<Option<String>>) -> (r: Result<(), NylonError>)
        requires
            old(self).wf(),
        ensures
            final(self).wf(),
            match store_error(services@, addr_errors@, 0) {
                Some(m) => {
                    &&& r matches Err(NylonError::ConfigError(e)) && e@ == m
                    &&& final(self).directory() == old(self).directory()
                    &&& final(self).cached() == old(self).cached()
                },
                None => {
                    &&& r is Ok
                    &&& final(self).cached().len() == 0
                    &&& final(self).directory() matches Some(d) && forall|k: Seq<char>| #[trigger] d.contains_key(k) ==>
                        exists|i: int| 0 <= i < services@.len() && services@[i].name@ == k && services@[i].service_type == ServiceType::Http && d[k] == i
                    &&& final(self).directory() matches Some(d) && forall|i: int| 0 <= i < services@.len()
                        && (#[trigger] services@[i]).service_type == ServiceType::Http ==> d.contains_key(services@[i].name@)
                },
            },
    {
        if let Some(m) = service_setup_error(services, addr_errors) {
            return Err(NylonError::ConfigError(m));
        }
        let mut names: TextMap<usize> = TextMap::new();
        let mut i: usize = 0;
        while i < services.len()
            invariant
                i <= services@.len(),
                forall|k: Seq<char>| #[trigger] names@.contains_key(k) ==>
                    exists|x: int| 0 <= x < services@.len() && services@[x].name@ == k && services@[x].service_type == ServiceType::Http && names@[k] == x,
                forall|x: int| 0 <= x < i && (#[trigger] services@[x]).service_type == ServiceType::Http ==> names@.contains_key(services@[x].name@),
            decreases services.len() - i,
        {
            if services[i].service_type == ServiceType::Http {
                names.insert(services[i].name.clone(), i);
            }
            i = i + 1;
        }
        lru_clear(&mut self.cache);
        self.names = Some(names);
        Ok(())
    }

    pub open spec fn services_missing_message(name: Seq<char>) -> Seq<char> {
        "Services not found: "@ + name
    }

    pub open spec fn service_missing_message(name: Seq<char>) -> Seq<char> {
        "Service not found: "@ + name
    }

    /// The position of the service called `name`, from the cache when it holds
    /// it; a lookup that finds the service puts it in the cache.
    pub fn get(&mut self, name: &str) -> (r: Result<usize, NylonError>)
        requires
            old(self).wf(),
        ensures
            final(self).wf(),
            final(self).directory() == old(self).directory(),
            match old(self).directory() {
                None => r matches Err(NylonError::ConfigError(m)) && m@ == Self::services_missing_message(name@),
                Some(d) => if d.contains_key(name@) {
                    r == Ok::<usize, NylonError>(d[name@])
                } else {
                    r matches Err(NylonError::ConfigError(m)) && m@ == Self::service_missing_message(name@)
                },
            },
    {
        proof {
            lemma_lru_find(lru_entries(self.cache), name@);
            reveal_strlit("Services not found: ");
            reveal_strlit("Service not found: ");
        }
        let ghost e0 = lru_entries(self.cache);
        let hit = lru_get(&mut self.cache, name);
        proof {
            if let Some(i) = lru_find(e0, name@) {
                assert forall|x: int| 0 <= x < lru_entries(self.cache).len() implies
                    (match self.names { Some(n) => n@.contains_key((#[trigger] lru_entries(self.cache)[x]).0) && n@[lru_entries(self.cache)[x].0] == lru_entries(self.cache)[x].1, None => false }) by {
                    if x > 0 {
                        let y = if x - 1 < i { x - 1 } else { x };
                        assert(lru_entries(self.cache)[x] == e0[y]);
                    }
                }
            }
        }
        if let Some(v) = hit {
            return Ok(v);
        }
        let found = match &self.names {
            None => {
                return Err(NylonError::ConfigError(String::from_str("Services not found: ").concat(name)));
            },
            Some(names) => match names.get(name) {
                Some(v) => *v,
                None => {
                    return Err(NylonError::ConfigError(String::from_str("Service not found: ").concat(name)));
                },
            },
        };
        let ghost e1 = lru_entries(self.cache);
        let _ = lru_put(&mut self.cache, String::from_str(name), found);
        proof {
            lemma_lru_find(e1, name@);
            assert forall|x: int| 0 <= x < lru_entries(self.cache).len() implies
                (match self.names { Some(n) => n@.contains_key((#[trigger] lru_entries(self.cache)[x]).0) && n@[lru_entries(self.cache)[x].0] == lru_entries(self.cache)[x].1, None => false }) by {
                if x > 0 {
                    assert(lru_entries(self.cache)[x] == e1[x - 1]);
                }
            }
        }
        Ok(found)
    }

    /// Empties the cache.
    pub fn clear_backend_service_cache(&mut self)
        requires
            old(self).wf(),
        ensures
            final(self).wf(),
            final(self).cached().len() == 0,
            final(self).directory() == old(self).directory(),
    {
        lru_clear(&mut self.cache);
    }

    /// The number of cached lookups and the capacity of the cache.
    pub fn get_backend_service_cache_stats(&self) -> (r: (usize, usize))
        requires
            self.wf(),
        ensures
            r.0 == self.cached().len(),
            r.1 == 500,
    {
        (lru_len(&self.cache), lru_cap(&self.cache))
    }
}

} // verus!
