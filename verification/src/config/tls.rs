//! TLS declarations of the configuration files.
use vstd::prelude::*;

verus! {

#[derive(Debug, Clone, Copy, PartialEq, Eq, Structural)]
pub enum TlsKind {
    Custom,
    Acme,
}

#[derive(Debug, Clone)]
pub struct TlsConfig {
    pub name: String,
    pub kind: TlsKind,
    pub key: Option<String>,
    pub cert: Option<String>,
    pub chain: Option<Vec<String>>,
    pub acme: Option<AcmeConfig>,
}

#[derive(Debug, Clone)]
pub struct AcmeConfig {
    pub provider: String,
    pub email: String,
}

} // verus!
