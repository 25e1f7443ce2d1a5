//! TLS configuration types.
use vstd::prelude::*;

verus! {

#[derive(Debug, Clone, Copy, PartialEq, Eq, Structural)]
pub enum TlsKind {
    Custom,
    Acme,
}

#[derive(Debug, Clone)]
pub struct TlsConfig {
    pub kind: TlsKind,
    pub key: Option<String>,
    pub cert: Option<String>,
    pub chain: Option<Vec<String>>,
    pub acme: Option<AcmeConfig>,
    pub domains: Vec<String>,
}

#[derive(Debug, Clone)]
pub struct AcmeConfig {
    pub provider: String,
    pub email: String,
    /// Path to ACME directory (the runtime configuration supplies it when absent)
    pub acme_dir: Option<String>,
}

} // verus!
