//! An issued certificate with its validity period, and the checks made on it.
use vstd::prelude::*;

verus! {

/// Calls `chrono::Utc::now().timestamp()`: the current time in seconds since the
/// Unix epoch. Nothing is promised of the value.
#[verifier::external_body]
pub(crate) fn now_timestamp() -> i64 {
    chrono::Utc::now().timestamp()
}

/// A certificate, its key and chain, and when it was issued and expires
/// (seconds since the Unix epoch).
#[derive(Debug, Clone)]
pub struct CertificateInfo {
    pub domain: String,
    pub cert: Vec<u8>,
    pub key: Vec<u8>,
    pub chain: Vec<Vec<u8>>,
    pub expires_at: i64,
    pub issued_at: i64,
}

/// Whole days in `secs` seconds, rounded toward zero.
pub open spec fn whole_days(secs: int) -> int {
    if secs >= 0 { secs / 86400 } else { -((-secs) / 86400) }
}

impl CertificateInfo {
    /// A certificate with its validity period.
    pub fn new(domain: String, cert: Vec<u8>, key: Vec<u8>, chain: Vec<Vec<u8>>, issued_at: i64, expires_at: i64) -> (r: CertificateInfo)
        ensures
            r.domain == domain,
            r.cert == cert,
            r.key == key,
            r.chain == chain,
            r.issued_at == issued_at,
            r.expires_at == expires_at,
    {
        CertificateInfo { domain, cert, key, chain, expires_at, issued_at }
    }

    pub open spec fn spec_days_until_expiry(&self, now: i64) -> int {
        whole_days(self.expires_at - now)
    }

    /// Whole days from `now` to the expiry (negative once expired), rounded toward zero.
    pub fn days_until_expiry_at(&self, now: i64) -> (r: i64)
        ensures
            r == self.spec_days_until_expiry(now),
    {
        let diff: i128 = self.expires_at as i128 - now as i128;
        if diff >= 0 {
            (diff / 86400) as i64
        } else {
            let magnitude: i128 = -diff;
            -((magnitude / 86400) as i64)
        }
    }

    /// Whether the certificate is due for renewal at `now`: less than 30 days left.
    pub fn needs_renewal_at(&self, now: i64) -> (r: bool)
        ensures
            r == (self.spec_days_until_expiry(now) < 30),
    {
        self.days_until_expiry_at(now) < 30
    }

    /// Expired at `now`: `now` is past the expiry time.
    pub open spec fn is_expired_spec(&self, now: i64) -> bool {
        now > self.expires_at
    }

    /// Whether the certificate has expired at `now`.
    pub fn is_expired_at(&self, now: i64) -> (r: bool)
        ensures
            r == (now > self.expires_at),
    {
        now > self.expires_at
    }

    /// Whole days left now.
    pub fn days_until_expiry(&self) -> (r: i64)
        ensures
            exists|now: i64| r == #[trigger] self.spec_days_until_expiry(now),
    {
        let now = now_timestamp();
        self.days_until_expiry_at(now)
    }

    /// Whether the certificate is due for renewal now.
    pub fn needs_renewal(&self) -> (r: bool)
        ensures
            exists|now: i64| r == (#[trigger] self.spec_days_until_expiry(now) < 30),
    {
        let now = now_timestamp();
        self.needs_renewal_at(now)
    }

    /// Whether the certificate has expired now: the clock reads past `expires_at`.
    pub fn is_expired(&self) -> (r: bool)
        ensures
            exists|now: i64| #[trigger] self.is_expired_spec(now) == r,
            r ==> self.expires_at < i64::MAX,
    {
        let now = now_timestamp();
        let r = self.is_expired_at(now);
        assert(self.is_expired_spec(now) == r);
        r
    }
}

/// Where ACME certificates are kept.
#[derive(Debug, Clone, Copy, Default)]
pub struct CertificateStore;

impl CertificateStore {
    pub fn new() -> (r: CertificateStore) {
        CertificateStore
    }
}

/// Renewal is due no later than expiry: an expired certificate needs renewal.
pub proof fn law_expired_needs_renewal(c: CertificateInfo, now: i64)
    requires
        now > c.expires_at,
    ensures
        c.spec_days_until_expiry(now) < 30,
{
}

} // verus!
