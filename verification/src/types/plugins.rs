//! Plugin and messaging configuration types.
use vstd::prelude::*;
use crate::types::json::JsonValue;

verus! {

/// Phase of request processing in which a plugin runs.
#[derive(Debug, Clone, Copy, PartialEq, Eq, Structural)]
pub enum PluginPhase {
    Zero,
    RequestFilter,
    ResponseFilter,
    ResponseBodyFilter,
    Logging,
}

impl PluginPhase {
    pub open spec fn code(self) -> u8 {
        match self {
            PluginPhase::Zero => 0,
            PluginPhase::RequestFilter => 1,
            PluginPhase::ResponseFilter => 2,
            PluginPhase::ResponseBodyFilter => 3,
            PluginPhase::Logging => 4,
        }
    }

    /// Wire code of the phase.
    pub fn to_u8(self) -> (r: u8)
        ensures
            r == self.code(),
    {
        match self {
            PluginPhase::Zero => 0,
            PluginPhase::RequestFilter => 1,
            PluginPhase::ResponseFilter => 2,
            PluginPhase::ResponseBodyFilter => 3,
            PluginPhase::Logging => 4,
        }
    }
}

/// How a plugin is run.
#[derive(Debug, Clone, Copy, PartialEq, Eq, Structural)]
pub enum PluginType {
    Wasm,
    Ffi,
    Messaging,
}

#[derive(Debug, Clone)]
pub struct LifeCycle {
    pub setup: Option<bool>,
    pub shutdown: Option<bool>,
}

/// A plugin as declared in the configuration.
#[derive(Debug)]
pub struct PluginItem {
    pub name: String,
    pub plugin_type: PluginType,
    pub file: Option<String>,
    pub entry: Option<Vec<String>>,
    pub config: Option<JsonValue>,
    pub messaging: Option<String>,
    pub group: Option<String>,
    pub max_inflight: Option<u32>,
    pub overflow_policy: Option<OverflowPolicy>,
    pub per_phase: Option<Vec<(MessagingPhase, MessagingPhaseConfig)>>,
}

/// What to do with a request when the in-flight limit is reached.
#[derive(Debug, Clone, Copy, PartialEq, Eq, Structural)]
pub enum OverflowPolicy {
    Reject,
    Queue,
    Shed,
}

impl OverflowPolicy {
    /// The default policy: queue.
    pub fn default_policy() -> (r: OverflowPolicy)
        ensures
            r == OverflowPolicy::Queue,
    {
        OverflowPolicy::Queue
    }
}

/// Phases that a messaging plugin can serve.
#[derive(Debug, Clone, Copy, PartialEq, Eq, Structural)]
pub enum MessagingPhase {
    RequestFilter,
    ResponseFilter,
    ResponseBodyFilter,
    Logging,
}

#[derive(Debug, Clone, Copy)]
pub struct MessagingPhaseConfig {
    pub timeout_ms: Option<u64>,
    pub on_error: Option<MessagingOnError>,
    pub retry: Option<RetryPolicyConfig>,
}

/// What to do when a messaging plugin call fails.
#[derive(Debug, Clone, Copy, PartialEq, Eq, Structural)]
pub enum MessagingOnError {
    Continue,
    End,
    Retry,
}

#[derive(Debug, Clone, Copy)]
pub struct RetryPolicyConfig {
    pub max: Option<u32>,
    pub backoff_ms_initial: Option<u64>,
    pub backoff_ms_max: Option<u64>,
}

#[derive(Debug)]
pub struct MessagingTlsConfig {
    pub enabled: Option<bool>,
    pub ca_file: Option<String>,
    pub cert_file: Option<String>,
    pub key_file: Option<String>,
    pub insecure_skip_verify: Option<bool>,
}

#[derive(Debug)]
pub struct MessagingAuthConfig {
    pub enabled: Option<bool>,
    pub nkey: Option<String>,
    pub credentials_file: Option<String>,
    pub user: Option<String>,
    pub password: Option<String>,
    pub token: Option<String>,
}

impl Clone for MessagingTlsConfig {
    fn clone(&self) -> (r: Self)
        ensures
            r == *self,
    {
        MessagingTlsConfig {
            enabled: self.enabled,
            ca_file: self.ca_file.clone(),
            cert_file: self.cert_file.clone(),
            key_file: self.key_file.clone(),
            insecure_skip_verify: self.insecure_skip_verify,
        }
    }
}

impl Clone for MessagingAuthConfig {
    fn clone(&self) -> (r: Self)
        ensures
            r == *self,
    {
        MessagingAuthConfig {
            enabled: self.enabled,
            nkey: self.nkey.clone(),
            credentials_file: self.credentials_file.clone(),
            user: self.user.clone(),
            password: self.password.clone(),
            token: self.token.clone(),
        }
    }
}

/// A messaging (NATS) connection as declared in the configuration.
#[derive(Debug, Clone)]
pub struct MessagingConfig {
    pub name: String,
    pub servers: Vec<String>,
    pub subject_prefix: Option<String>,
    pub request_timeout_ms: Option<u64>,
    pub max_inflight: Option<u32>,
    pub overflow_policy: Option<OverflowPolicy>,
    pub retry: Option<RetryPolicyConfig>,
    pub tls: Option<MessagingTlsConfig>,
    pub auth: Option<MessagingAuthConfig>,
    pub default_headers: Option<Vec<(String, String)>>,
}

} // verus!
