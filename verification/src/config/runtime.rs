//! Runtime (process-level) configuration.
use vstd::prelude::*;
use vstd::string::*;
use crate::error::NylonError;
use crate::store::{GlobalStore, StoredValue, KEY_RUNTIME_CONFIG};

verus! {

/// Process-level configuration: listeners, configuration directory, server options.
#[derive(Debug)]
pub struct RuntimeConfig {
    /// HTTP listening addresses
    pub http: Vec<String>,
    /// HTTPS listening addresses
    pub https: Vec<String>,
    /// Prometheus metrics addresses
    pub metrics: Vec<String>,
    /// Path to directory containing service and route definitions
    pub config_dir: String,
    /// Directory of ACME account and certificate files
    pub acme: String,
    /// Server runtime configuration
    pub pingora: PingoraConfig,
}

/// Server runtime options.
#[derive(Debug)]
pub struct PingoraConfig {
    /// Run in daemon mode
    pub daemon: bool,
    /// Number of worker threads
    pub threads: usize,
    /// Grace period for in-flight connections
    pub grace_period_seconds: u64,
    /// Maximum wait time before forced shutdown
    pub graceful_shutdown_timeout_seconds: u64,
    /// Max number of upstream keepalive connections
    pub upstream_keepalive_pool_size: Option<usize>,
    /// Enable work stealing between threads
    pub work_stealing: Option<bool>,
    /// File path for error logging
    pub error_log: Option<String>,
    /// File path for PID file
    pub pid_file: Option<String>,
    /// Socket path for zero-downtime upgrade
    pub upgrade_sock: Option<String>,
    /// User to drop privileges to
    pub user: Option<String>,
    /// Group to drop privileges to
    pub group: Option<String>,
    /// Path to trusted CA certificates
    pub ca_file: Option<String>,
}

pub fn default_config_dir() -> (r: String)
    ensures
        r@ == "/etc/nylon/config"@,
{
    String::from_str("/etc/nylon/config")
}

pub fn default_daemon() -> (r: bool)
    ensures
        r,
{
    true
}

pub fn default_grace_period() -> (r: u64)
    ensures
        r == 60,
{
    60
}

pub fn default_shutdown_timeout() -> (r: u64)
    ensures
        r == 10,
{
    10
}

/// Calls `num_cpus::get`: the number of logical CPUs, at least 1 by its documentation.
#[verifier::external_body]
pub(crate) fn cpu_count() -> (r: usize)
    ensures
        r >= 1,
{
    num_cpus::get()
}

pub open spec fn spec_threads_for_cpus(cpus: usize) -> usize {
    let reserved: int = if cpus >= 6 { 2 } else if cpus > 1 { 1 } else { 0 };
    let n = cpus - reserved;
    if n < 1 { 1 } else if n > 16 { 16 } else { n as usize }
}

/// Worker threads for a machine with `cpus` CPUs: two CPUs are kept free from
/// six CPUs on, one from two on; the result lies in `[1, 16]`.
pub fn threads_for_cpus(cpus: usize) -> (r: usize)
    ensures
        r == spec_threads_for_cpus(cpus),
        1 <= r <= 16,
{
    let reserved: usize = if cpus >= 6 { 2 } else if cpus > 1 { 1 } else { 0 };
    let n = cpus - reserved;
    if n < 1 { 1 } else if n > 16 { 16 } else { n }
}

/// Worker threads for this machine: `threads_for_cpus` of the CPU count that
/// `num_cpus` reports (at least 1; which one depends on the machine).
pub fn default_threads() -> (r: usize)
    ensures
        exists|cpus: usize| cpus >= 1 && r == #[trigger] spec_threads_for_cpus(cpus),
        1 <= r <= 16,
{
    threads_for_cpus(cpu_count())
}

fn copy_strings(v: &Vec<String>) -> (r: Vec<String>)
    ensures
        r@ == v@,
{
    let mut out: Vec<String> = Vec::new();
    let mut i: usize = 0;
    while i < v.len()
        invariant
            i <= v.len(),
            out@ == v@.subrange(0, i as int),
        decreases v.len() - i,
    {
        out.push(v[i].clone());
        assert(out@ =~= v@.subrange(0, i + 1));
        i = i + 1;
    }
    assert(v@.subrange(0, i as int) =~= v@);
    out
}

fn copy_opt_string(v: &Option<String>) -> (r: Option<String>)
    ensures
        r == *v,
{
    match v {
        Some(s) => Some(s.clone()),
        None => None,
    }
}

impl PingoraConfig {
    /// Daemon mode, the machine's default thread count, 60 s grace period,
    /// 10 s shutdown timeout, nothing else set.
    pub fn default_config() -> (r: PingoraConfig)
        ensures
            r.daemon,
            1 <= r.threads <= 16,
            r.grace_period_seconds == 60,
            r.graceful_shutdown_timeout_seconds == 10,
            r.upstream_keepalive_pool_size.is_none(),
            r.work_stealing.is_none(),
            r.error_log.is_none() && r.pid_file.is_none() && r.upgrade_sock.is_none(),
            r.user.is_none() && r.group.is_none() && r.ca_file.is_none(),
    {
        PingoraConfig {
            daemon: default_daemon(),
            threads: default_threads(),
            grace_period_seconds: default_grace_period(),
            graceful_shutdown_timeout_seconds: default_shutdown_timeout(),
            upstream_keepalive_pool_size: None,
            work_stealing: None,
            error_log: None,
            pid_file: None,
            upgrade_sock: None,
            user: None,
            group: None,
            ca_file: None,
        }
    }

    pub fn duplicate(&self) -> (r: PingoraConfig)
        ensures
            r == *self,
    {
        PingoraConfig {
            daemon: self.daemon,
            threads: self.threads,
            grace_period_seconds: self.grace_period_seconds,
            graceful_shutdown_timeout_seconds: self.graceful_shutdown_timeout_seconds,
            upstream_keepalive_pool_size: self.upstream_keepalive_pool_size,
            work_stealing: self.work_stealing,
            error_log: copy_opt_string(&self.error_log),
            pid_file: copy_opt_string(&self.pid_file),
            upgrade_sock: copy_opt_string(&self.upgrade_sock),
            user: copy_opt_string(&self.user),
            group: copy_opt_string(&self.group),
            ca_file: copy_opt_string(&self.ca_file),
        }
    }
}

impl RuntimeConfig {
    /// No listeners, `/etc/nylon/config` as configuration directory, default server options.
    pub fn default_config() -> (r: RuntimeConfig)
        ensures
            r.http@.len() == 0 && r.https@.len() == 0 && r.metrics@.len() == 0,
            r.config_dir@ == "/etc/nylon/config"@,
            r.acme@ == ".acme"@,
            r.pingora.daemon,
    {
        RuntimeConfig {
            http: Vec::new(),
            https: Vec::new(),
            metrics: Vec::new(),
            config_dir: default_config_dir(),
            acme: String::from_str(".acme"),
            pingora: PingoraConfig::default_config(),
        }
    }

    /// Whether two configurations hold the same settings.
    pub open spec fn same(&self, other: &RuntimeConfig) -> bool {
        &&& self.http@ == other.http@
        &&& self.https@ == other.https@
        &&& self.metrics@ == other.metrics@
        &&& self.config_dir@ == other.config_dir@
        &&& self.acme@ == other.acme@
        &&& self.pingora == other.pingora
    }

    pub fn duplicate(&self) -> (r: RuntimeConfig)
        ensures
            r.same(self),
    {
        RuntimeConfig {
            http: copy_strings(&self.http),
            https: copy_strings(&self.https),
            metrics: copy_strings(&self.metrics),
            config_dir: self.config_dir.clone(),
            acme: self.acme.clone(),
            pingora: self.pingora.duplicate(),
        }
    }

    /// Stores a copy of this configuration in the store.
    pub fn store(&self, store: &mut GlobalStore) -> (r: Result<(), NylonError>)
        ensures
            r.is_ok(),
            final(store)@.dom() == old(store)@.dom().insert(KEY_RUNTIME_CONFIG@),
            final(store)@[KEY_RUNTIME_CONFIG@] is Runtime,
            (final(store)@[KEY_RUNTIME_CONFIG@]->Runtime_0).same(self),
            forall|k: Seq<char>| k != KEY_RUNTIME_CONFIG@ && old(store)@.contains_key(k) ==> #[trigger] final(store)@[k] == old(store)@[k],
    {
        let key = String::from_str(KEY_RUNTIME_CONFIG);
        store.insert(key, StoredValue::Runtime(self.duplicate()));
        Ok(())
    }

    /// The configuration held in the store.
    pub fn get(store: &GlobalStore) -> (r: Result<RuntimeConfig, NylonError>)
        ensures
            match r {
                Ok(c) => store@.contains_key(KEY_RUNTIME_CONFIG@) && store@[KEY_RUNTIME_CONFIG@] is Runtime
                && c.same(&store@[KEY_RUNTIME_CONFIG@]->Runtime_0),
                Err(e) => !(store@.contains_key(KEY_RUNTIME_CONFIG@) && store@[KEY_RUNTIME_CONFIG@] is Runtime)
                    && (e matches NylonError::ConfigError(m) && m@ == "Runtime config not found"@),
            },
    {
        match store.get(KEY_RUNTIME_CONFIG) {
            Some(StoredValue::Runtime(c)) => Ok(c.duplicate()),
            _ => Err(NylonError::ConfigError(String::from_str("Runtime config not found"))),
        }
    }
}

} // verus!
