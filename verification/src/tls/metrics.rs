//! Counters of ACME issuance and renewal, overall and per domain.
use vstd::prelude::*;
use crate::text_map::TextMap;
use crate::tls::certificate::now_timestamp;

verus! {

/// What happened lately for one domain (times in seconds since the Unix epoch).
#[derive(Debug, Clone)]
pub struct DomainMetrics {
    pub domain: String,
    pub last_issuance: Option<i64>,
    pub last_renewal: Option<i64>,
    pub last_failure: Option<i64>,
    pub failure_count: u32,
    pub days_until_expiry: i64,
}

/// The totals at one moment.
#[derive(Debug, Clone, Copy)]
pub struct MetricsSummary {
    pub issuance_success: u64,
    pub issuance_failure: u64,
    pub renewal_success: u64,
    pub renewal_failure: u64,
    pub challenge_success: u64,
    pub challenge_failure: u64,
    pub domain_count: usize,
}

/// ACME counters; each total counts up, wrapping around as an atomic counter does.
pub struct AcmeMetrics {
    pub issuance_success: u64,
    pub issuance_failure: u64,
    pub renewal_success: u64,
    pub renewal_failure: u64,
    pub challenge_success: u64,
    pub challenge_failure: u64,
    pub domain_metrics: TextMap<DomainMetrics>,
}

pub open spec fn bump(n: u64) -> u64 {
    if n == u64::MAX { 0 } else { (n + 1) as u64 }
}

/// The failure count of a domain, 0 when it has no entry yet.
pub open spec fn failures(m: Map<Seq<char>, DomainMetrics>, d: Seq<char>) -> u32 {
    if m.contains_key(d) { m[d].failure_count } else { 0 }
}

/// When the domain last had an issuance; never when it has no entry yet.
pub open spec fn prior_issuance(m: Map<Seq<char>, DomainMetrics>, d: Seq<char>) -> Option<i64> {
    if m.contains_key(d) { m[d].last_issuance } else { None }
}

/// When the domain last had a renewal; never when it has no entry yet.
pub open spec fn prior_renewal(m: Map<Seq<char>, DomainMetrics>, d: Seq<char>) -> Option<i64> {
    if m.contains_key(d) { m[d].last_renewal } else { None }
}

/// When the domain last failed; never when it has no entry yet.
pub open spec fn prior_failure(m: Map<Seq<char>, DomainMetrics>, d: Seq<char>) -> Option<i64> {
    if m.contains_key(d) { m[d].last_failure } else { None }
}

/// `after` keeps the domain name and the days left of the domain's entry (a new
/// entry: the domain itself and `days`).
pub open spec fn keeps_rest(m: Map<Seq<char>, DomainMetrics>, d: Seq<char>, after: DomainMetrics, days: i64) -> bool {
    &&& after.domain@ == (if m.contains_key(d) { m[d].domain@ } else { d })
    &&& after.days_until_expiry == (if m.contains_key(d) { m[d].days_until_expiry } else { days })
}

fn fresh_entry(domain: &str, days: i64) -> (r: DomainMetrics)
    ensures
        r.domain@ == domain@,
        r.last_issuance.is_none() && r.last_renewal.is_none() && r.last_failure.is_none(),
        r.failure_count == 0,
        r.days_until_expiry == days,
{
    DomainMetrics {
        domain: String::from_str(domain),
        last_issuance: None,
        last_renewal: None,
        last_failure: None,
        failure_count: 0,
        days_until_expiry: days,
    }
}

impl AcmeMetrics {
    /// All counters at zero, no domain.
    pub fn new() -> (r: AcmeMetrics)
        ensures
            r.issuance_success == 0 && r.issuance_failure == 0,
            r.renewal_success == 0 && r.renewal_failure == 0,
            r.challenge_success == 0 && r.challenge_failure == 0,
            r.domain_metrics@ == Map::<Seq<char>, DomainMetrics>::empty(),
    {
        AcmeMetrics {
            issuance_success: 0,
            issuance_failure: 0,
            renewal_success: 0,
            renewal_failure: 0,
            challenge_success: 0,
            challenge_failure: 0,
            domain_metrics: TextMap::new(),
        }
    }

    fn take_entry(&mut self, domain: &str) -> (r: DomainMetrics)
        ensures
            final(self).domain_metrics@ == old(self).domain_metrics@.remove(domain@),
            old(self).domain_metrics@.contains_key(domain@) ==> r == old(self).domain_metrics@[domain@],
            !old(self).domain_metrics@.contains_key(domain@) ==> (r.domain@ == domain@
                && r.last_issuance.is_none() && r.last_renewal.is_none() && r.last_failure.is_none()
                && r.failure_count == 0 && r.days_until_expiry == 0),
            final(self).issuance_success == old(self).issuance_success,
            final(self).issuance_failure == old(self).issuance_failure,
            final(self).renewal_success == old(self).renewal_success,
            final(self).renewal_failure == old(self).renewal_failure,
            final(self).challenge_success == old(self).challenge_success,
            final(self).challenge_failure == old(self).challenge_failure,
    {
        match self.domain_metrics.remove(domain) {
            Some(m) => m,
            None => fresh_entry(domain, 0),
        }
    }

    /// Counts a successful issuance; the domain's failures are forgotten.
    pub fn record_issuance_success(&mut self, domain: &str)
        ensures
            final(self).challenge_success == old(self).challenge_success,
            final(self).challenge_failure == old(self).challenge_failure,
            final(self).issuance_success == bump(old(self).issuance_success),
            final(self).domain_metrics@.dom() == old(self).domain_metrics@.dom().insert(domain@),
            final(self).domain_metrics@[domain@].last_issuance.is_some(),
            final(self).domain_metrics@[domain@].failure_count == 0,
            final(self).domain_metrics@[domain@].last_renewal == prior_renewal(old(self).domain_metrics@, domain@),
            final(self).domain_metrics@[domain@].last_failure == prior_failure(old(self).domain_metrics@, domain@),
            keeps_rest(old(self).domain_metrics@, domain@, final(self).domain_metrics@[domain@], 0),
            forall|d: Seq<char>| d != domain@ ==> final(self).domain_metrics@.contains_key(d) == old(self).domain_metrics@.contains_key(d)
                && (old(self).domain_metrics@.contains_key(d) ==> final(self).domain_metrics@[d] == old(self).domain_metrics@[d]),
            final(self).issuance_failure == old(self).issuance_failure,
            final(self).renewal_success == old(self).renewal_success,
            final(self).renewal_failure == old(self).renewal_failure,
    {
        self.issuance_success = self.issuance_success.wrapping_add(1);
        let mut entry = self.take_entry(domain);
        entry.last_issuance = Some(now_timestamp());
        entry.failure_count = 0;
        self.domain_metrics.insert(String::from_str(domain), entry);
        assert(self.domain_metrics@.dom() =~= old(self).domain_metrics@.dom().insert(domain@));
    }

    /// Counts a failed issuance and one more failure of the domain.
    pub fn record_issuance_failure(&mut self, domain: &str)
        requires
            failures(old(self).domain_metrics@, domain@) < u32::MAX,
        ensures
            final(self).challenge_success == old(self).challenge_success,
            final(self).challenge_failure == old(self).challenge_failure,
            final(self).issuance_failure == bump(old(self).issuance_failure),
            final(self).domain_metrics@.dom() == old(self).domain_metrics@.dom().insert(domain@),
            final(self).domain_metrics@[domain@].last_failure.is_some(),
            final(self).domain_metrics@[domain@].failure_count == failures(old(self).domain_metrics@, domain@) + 1,
            final(self).domain_metrics@[domain@].last_issuance == prior_issuance(old(self).domain_metrics@, domain@),
            final(self).domain_metrics@[domain@].last_renewal == prior_renewal(old(self).domain_metrics@, domain@),
            keeps_rest(old(self).domain_metrics@, domain@, final(self).domain_metrics@[domain@], 0),
            forall|d: Seq<char>| d != domain@ ==> final(self).domain_metrics@.contains_key(d) == old(self).domain_metrics@.contains_key(d)
                && (old(self).domain_metrics@.contains_key(d) ==> final(self).domain_metrics@[d] == old(self).domain_metrics@[d]),
            final(self).issuance_success == old(self).issuance_success,
            final(self).renewal_success == old(self).renewal_success,
            final(self).renewal_failure == old(self).renewal_failure,
    {
        self.issuance_failure = self.issuance_failure.wrapping_add(1);
        let mut entry = self.take_entry(domain);
        entry.last_failure = Some(now_timestamp());
        entry.failure_count = entry.failure_count + 1;
        self.domain_metrics.insert(String::from_str(domain), entry);
        assert(self.domain_metrics@.dom() =~= old(self).domain_metrics@.dom().insert(domain@));
    }

    /// Counts a successful renewal; the domain's failures are forgotten.
    pub fn record_renewal_success(&mut self, domain: &str)
        ensures
            final(self).challenge_success == old(self).challenge_success,
            final(self).challenge_failure == old(self).challenge_failure,
            final(self).renewal_success == bump(old(self).renewal_success),
            final(self).domain_metrics@.dom() == old(self).domain_metrics@.dom().insert(domain@),
            final(self).domain_metrics@[domain@].last_renewal.is_some(),
            final(self).domain_metrics@[domain@].failure_count == 0,
            final(self).domain_metrics@[domain@].last_issuance == prior_issuance(old(self).domain_metrics@, domain@),
            final(self).domain_metrics@[domain@].last_failure == prior_failure(old(self).domain_metrics@, domain@),
            keeps_rest(old(self).domain_metrics@, domain@, final(self).domain_metrics@[domain@], 0),
            forall|d: Seq<char>| d != domain@ ==> final(self).domain_metrics@.contains_key(d) == old(self).domain_metrics@.contains_key(d)
                && (old(self).domain_metrics@.contains_key(d) ==> final(self).domain_metrics@[d] == old(self).domain_metrics@[d]),
            final(self).issuance_success == old(self).issuance_success,
            final(self).issuance_failure == old(self).issuance_failure,
            final(self).renewal_failure == old(self).renewal_failure,
    {
        self.renewal_success = self.renewal_success.wrapping_add(1);
        let mut entry = self.take_entry(domain);
        entry.last_renewal = Some(now_timestamp());
        entry.failure_count = 0;
        self.domain_metrics.insert(String::from_str(domain), entry);
        assert(self.domain_metrics@.dom() =~= old(self).domain_metrics@.dom().insert(domain@));
    }

    /// Counts a failed renewal and one more failure of the domain.
    pub fn record_renewal_failure(&mut self, domain: &str)
        requires
            failures(old(self).domain_metrics@, domain@) < u32::MAX,
        ensures
            final(self).challenge_success == old(self).challenge_success,
            final(self).challenge_failure == old(self).challenge_failure,
            final(self).renewal_failure == bump(old(self).renewal_failure),
            final(self).domain_metrics@.dom() == old(self).domain_metrics@.dom().insert(domain@),
            final(self).domain_metrics@[domain@].last_failure.is_some(),
            final(self).domain_metrics@[domain@].failure_count == failures(old(self).domain_metrics@, domain@) + 1,
            final(self).domain_metrics@[domain@].last_issuance == prior_issuance(old(self).domain_metrics@, domain@),
            final(self).domain_metrics@[domain@].last_renewal == prior_renewal(old(self).domain_metrics@, domain@),
            keeps_rest(old(self).domain_metrics@, domain@, final(self).domain_metrics@[domain@], 0),
            forall|d: Seq<char>| d != domain@ ==> final(self).domain_metrics@.contains_key(d) == old(self).domain_metrics@.contains_key(d)
                && (old(self).domain_metrics@.contains_key(d) ==> final(self).domain_metrics@[d] == old(self).domain_metrics@[d]),
            final(self).issuance_success == old(self).issuance_success,
            final(self).issuance_failure == old(self).issuance_failure,
            final(self).renewal_success == old(self).renewal_success,
    {
        self.renewal_failure = self.renewal_failure.wrapping_add(1);
        let mut entry = self.take_entry(domain);
        entry.last_failure = Some(now_timestamp());
        entry.failure_count = entry.failure_count + 1;
        self.domain_metrics.insert(String::from_str(domain), entry);
        assert(self.domain_metrics@.dom() =~= old(self).domain_metrics@.dom().insert(domain@));
    }

    /// Sets the days left before the domain's certificate expires.
    pub fn update_days_until_expiry(&mut self, domain: &str, days: i64)
        ensures
            final(self).challenge_success == old(self).challenge_success,
            final(self).challenge_failure == old(self).challenge_failure,
            final(self).domain_metrics@.dom() == old(self).domain_metrics@.dom().insert(domain@),
            final(self).domain_metrics@[domain@].days_until_expiry == days,
            final(self).domain_metrics@[domain@].failure_count == failures(old(self).domain_metrics@, domain@),
            final(self).domain_metrics@[domain@].last_issuance == prior_issuance(old(self).domain_metrics@, domain@),
            final(self).domain_metrics@[domain@].last_renewal == prior_renewal(old(self).domain_metrics@, domain@),
            final(self).domain_metrics@[domain@].last_failure == prior_failure(old(self).domain_metrics@, domain@),
            final(self).domain_metrics@[domain@].domain@ == (if old(self).domain_metrics@.contains_key(domain@) {
                old(self).domain_metrics@[domain@].domain@
            } else {
                domain@
            }),
            forall|d: Seq<char>| d != domain@ ==> final(self).domain_metrics@.contains_key(d) == old(self).domain_metrics@.contains_key(d)
                && (old(self).domain_metrics@.contains_key(d) ==> final(self).domain_metrics@[d] == old(self).domain_metrics@[d]),
            final(self).issuance_success == old(self).issuance_success,
            final(self).issuance_failure == old(self).issuance_failure,
            final(self).renewal_success == old(self).renewal_success,
            final(self).renewal_failure == old(self).renewal_failure,
    {
        let mut entry = match self.domain_metrics.remove(domain) {
            Some(m) => m,
            None => fresh_entry(domain, days),
        };
        entry.days_until_expiry = days;
        self.domain_metrics.insert(String::from_str(domain), entry);
        assert(self.domain_metrics@.dom() =~= old(self).domain_metrics@.dom().insert(domain@));
    }

    /// The totals and the number of domains.
    pub fn get_summary(&self) -> (r: MetricsSummary)
        ensures
            r.issuance_success == self.issuance_success,
            r.issuance_failure == self.issuance_failure,
            r.renewal_success == self.renewal_success,
            r.renewal_failure == self.renewal_failure,
            r.challenge_success == self.challenge_success,
            r.challenge_failure == self.challenge_failure,
            r.domain_count == self.domain_metrics@.len(),
    {
        MetricsSummary {
            issuance_success: self.issuance_success,
            issuance_failure: self.issuance_failure,
            renewal_success: self.renewal_success,
            renewal_failure: self.renewal_failure,
            challenge_success: self.challenge_success,
            challenge_failure: self.challenge_failure,
            domain_count: self.domain_metrics.len(),
        }
    }
}

} // verus!
