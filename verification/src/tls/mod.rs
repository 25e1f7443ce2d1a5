//! Certificates: ACME issuance helpers, certificate validity and ACME metrics.
pub mod acme;
pub mod certificate;
pub mod metrics;
