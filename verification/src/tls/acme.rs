//! The parts of the ACME client that decide: request pacing, where files go, and
//! how a PEM chain is split into certificates.
use vstd::prelude::*;
use vstd::string::*;
use vstd::utf8::encode_utf8;
use crate::config::proxy::trim_ws;
use crate::error::NylonError;
use crate::text::{occurs_at, first_occurrence, split_pieces, first_occurrence_exec, is_whitespace, str_chars, string_from_chars, utf8_bytes, lossy_string, utf8_lossy, char_is_whitespace};

verus! {

/// Pacing of ACME requests: at least `min_interval_ms` apart, and at least the
/// current back-off apart, which doubles after each error up to five minutes.
pub struct RateLimiter {
    pub last_request_ms: Option<u64>,
    pub backoff_ms: u64,
    pub min_interval_ms: u64,
}

impl RateLimiter {
    /// No request yet, one second of back-off, five seconds between requests.
    pub fn new() -> (r: RateLimiter)
        ensures
            r.last_request_ms.is_none(),
            r.backoff_ms == 1000,
            r.min_interval_ms == 5000,
    {
        RateLimiter { last_request_ms: None, backoff_ms: 1000, min_interval_ms: 5000 }
    }

    pub open spec fn spec_wait_ms(&self, now_ms: u64) -> u64 {
        match self.last_request_ms {
            Some(last) => {
                let required = if self.backoff_ms >= self.min_interval_ms { self.backoff_ms } else { self.min_interval_ms };
                let elapsed = if now_ms >= last { now_ms - last } else { 0 };
                if elapsed < required { (required - elapsed) as u64 } else { 0 }
            },
            None => 0,
        }
    }

    /// How long to wait, at `now_ms`, before the next request; the request is
    /// then recorded as made at `now_ms`.
    pub fn wait_if_needed(&mut self, now_ms: u64) -> (r: u64)
        ensures
            r == old(self).spec_wait_ms(now_ms),
            final(self).last_request_ms == Some(now_ms),
            final(self).backoff_ms == old(self).backoff_ms,
            final(self).min_interval_ms == old(self).min_interval_ms,
    {
        let wait = match self.last_request_ms {
            Some(last) => {
                let required = if self.backoff_ms >= self.min_interval_ms { self.backoff_ms } else { self.min_interval_ms };
                let elapsed = now_ms.saturating_sub(last);
                if elapsed < required { required - elapsed } else { 0 }
            },
            None => 0,
        };
        self.last_request_ms = Some(now_ms);
        wait
    }

    /// Doubles the back-off after an error, up to five minutes.
    pub fn increase_backoff(&mut self)
        ensures
            final(self).backoff_ms == (if 2 * old(self).backoff_ms <= 300000 { 2 * old(self).backoff_ms } else { 300000 }),
            final(self).last_request_ms == old(self).last_request_ms,
            final(self).min_interval_ms == old(self).min_interval_ms,
    {
        self.backoff_ms = if self.backoff_ms <= 150000 { self.backoff_ms * 2 } else { 300000 };
    }

    /// Back to one second of back-off after a success.
    pub fn reset_backoff(&mut self)
        ensures
            final(self).backoff_ms == 1000,
            final(self).last_request_ms == old(self).last_request_ms,
            final(self).min_interval_ms == old(self).min_interval_ms,
    {
        self.backoff_ms = 1000;
    }
}

/// Raising the back-off of a limiter whose back-off is within five minutes keeps
/// it within five minutes and never lowers it.
pub proof fn law_backoff_bounded(before: RateLimiter, after: RateLimiter)
    requires
        before.backoff_ms <= 300000,
        after.backoff_ms == (if 2 * before.backoff_ms <= 300000 { 2 * before.backoff_ms } else { 300000 }),
    ensures
        before.backoff_ms <= after.backoff_ms <= 300000,
{
}

/// `<dir>/account.json`
pub fn credentials_path(acme_dir: &str) -> (r: String)
    ensures
        r@ == acme_dir@ + "/account.json"@,
{
    proof { reveal_strlit("/account.json"); }
    String::from_str(acme_dir).concat("/account.json")
}

/// `<dir>/certs/<domain>/<file>`
pub open spec fn spec_cert_file(acme_dir: Seq<char>, domain: Seq<char>, file: Seq<char>) -> Seq<char> {
    acme_dir + "/certs/"@ + domain + "/"@ + file
}

fn cert_file(acme_dir: &str, domain: &str, file: &str) -> (r: String)
    ensures
        r@ == spec_cert_file(acme_dir@, domain@, file@),
{
    proof {
        reveal_strlit("/certs/");
        reveal_strlit("/");
    }
    String::from_str(acme_dir).concat("/certs/").concat(domain).concat("/").concat(file)
}

/// `<dir>/certs/<domain>/cert.pem`
pub fn cert_path(acme_dir: &str, domain: &str) -> (r: String)
    ensures
        r@ == spec_cert_file(acme_dir@, domain@, "cert.pem"@),
{
    cert_file(acme_dir, domain, "cert.pem")
}

/// `<dir>/certs/<domain>/key.pem`
pub fn key_path(acme_dir: &str, domain: &str) -> (r: String)
    ensures
        r@ == spec_cert_file(acme_dir@, domain@, "key.pem"@),
{
    cert_file(acme_dir, domain, "key.pem")
}

/// `<dir>/certs/<domain>/fullchain.pem`
pub fn fullchain_path(acme_dir: &str, domain: &str) -> (r: String)
    ensures
        r@ == spec_cert_file(acme_dir@, domain@, "fullchain.pem"@),
{
    cert_file(acme_dir, domain, "fullchain.pem")
}

/// `<dir>/certs/<domain>/chain.pem`
pub fn chain_path(acme_dir: &str, domain: &str) -> (r: String)
    ensures
        r@ == spec_cert_file(acme_dir@, domain@, "chain.pem"@),
{
    cert_file(acme_dir, domain, "chain.pem")
}

/// `<dir>/challenges/<domain>/<token>`
pub fn challenge_path(acme_dir: &str, domain: &str, token: &str) -> (r: String)
    ensures
        r@ == acme_dir@ + "/challenges/"@ + domain@ + "/"@ + token@,
{
    proof {
        reveal_strlit("/challenges/");
        reveal_strlit("/");
    }
    String::from_str(acme_dir).concat("/challenges/").concat(domain).concat("/").concat(token)
}

/// `<dir>/challenges/<domain>`
pub fn challenge_dir(acme_dir: &str, domain: &str) -> (r: String)
    ensures
        r@ == acme_dir@ + "/challenges/"@ + domain@,
{
    proof {
        reveal_strlit("/challenges/");
    }
    String::from_str(acme_dir).concat("/challenges/").concat(domain)
}

/// The line that opens a PEM certificate.
pub open spec fn pem_begin() -> Seq<char> {
    "-----BEGIN CERTIFICATE-----"@
}

/// Whether a piece has anything but whitespace.
pub open spec fn has_content(p: Seq<char>) -> bool {
    exists|k: int| 0 <= k < p.len() && !char_is_whitespace(#[trigger] p[k])
}

/// The pieces with content.
pub open spec fn nonblank(ps: Seq<Seq<char>>) -> Seq<Seq<char>>
    decreases ps.len(),
{
    if ps.len() == 0 {
        Seq::empty()
    } else if has_content(ps.last()) {
        nonblank(ps.drop_last()).push(ps.last())
    } else {
        nonblank(ps.drop_last())
    }
}

/// A certificate rebuilt from its piece: the opening line back in front, and a
/// final newline when it has none.
pub open spec fn rebuilt_pem(piece: Seq<char>) -> Seq<char> {
    let t = pem_begin() + piece;
    if t.len() > 0 && t.last() == '\n' { t } else { t.push('\n') }
}

/// The certificates of a PEM text, in order.
pub open spec fn pem_certificates(text: Seq<char>) -> Seq<Seq<char>> {
    nonblank(split_pieces(text, pem_begin(), 0)).map_values(|p: Seq<char>| rebuilt_pem(p))
}

fn has_content_exec(v: &Vec<char>, from: usize, to: usize) -> (r: bool)
    requires
        from <= to <= v@.len(),
    ensures
        r == has_content(v@.subrange(from as int, to as int)),
{
    let ghost p = v@.subrange(from as int, to as int);
    let mut k = from;
    while k < to
        invariant
            from <= k <= to <= v@.len(),
            p == v@.subrange(from as int, to as int),
            forall|x: int| 0 <= x < k - from ==> char_is_whitespace(#[trigger] p[x]),
        decreases to - k,
    {
        if !is_whitespace(v[k]) {
            assert(!char_is_whitespace(p[k - from]));
            return true;
        }
        k = k + 1;
    }
    false
}

fn rebuild_pem(v: &Vec<char>, from: usize, to: usize) -> (r: String)
    requires
        from <= to <= v@.len(),
    ensures
        r@ == rebuilt_pem(v@.subrange(from as int, to as int)),
{
    let mut out = str_chars("-----BEGIN CERTIFICATE-----");
    proof {
        reveal_strlit("-----BEGIN CERTIFICATE-----");
    }
    let ghost head = out@;
    let mut k = from;
    while k < to
        invariant
            from <= k <= to <= v@.len(),
            out@ == head + v@.subrange(from as int, k as int),
        decreases to - k,
    {
        out.push(v[k]);
        k = k + 1;
        assert(out@ =~= head + v@.subrange(from as int, k as int));
    }
    let ends_with_newline = out.len() > 0 && out[out.len() - 1] == '\n';
    if !ends_with_newline {
        out.push('\n');
    }
    string_from_chars(out.as_slice())
}

/// The certificates of a PEM text, each a complete PEM block ending in a newline.
pub fn pem_blocks(text: &str) -> (r: Vec<String>)
    ensures
        r@.len() == pem_certificates(text@).len(),
        forall|i: int| 0 <= i < r@.len() ==> #[trigger] r@[i]@ == pem_certificates(text@)[i],
{
    let s = str_chars(text);
    let m = str_chars("-----BEGIN CERTIFICATE-----");
    proof {
        reveal_strlit("-----BEGIN CERTIFICATE-----");
    }
    let ghost sv = s@;
    let mut out: Vec<String> = Vec::new();
    let mut i: usize = 0;
    let mut done = false;
    let ghost mut consumed: Seq<Seq<char>> = Seq::empty();
    while !done
        invariant
            sv == s@,
            m@ == pem_begin(),
            m@.len() > 0,
            i <= s@.len(),
            !done ==> split_pieces(sv, m@, 0) == consumed + split_pieces(sv, m@, i as int),
            done ==> split_pieces(sv, m@, 0) == consumed,
            out@.len() == nonblank(consumed).len(),
            forall|x: int| 0 <= x < out@.len() ==> #[trigger] out@[x]@ == rebuilt_pem(nonblank(consumed)[x]),
        decreases s@.len() - i + (if done { 0int } else { 1int }),
    {
        let next = first_occurrence_exec(&s, &m, i);
        let end = match next {
            Some(j) => j,
            None => s.len(),
        };
        let ghost piece = sv.subrange(i as int, end as int);
        if has_content_exec(&s, i, end) {
            let pem = rebuild_pem(&s, i, end);
            out.push(pem);
        }
        proof {
            let c2 = consumed.push(piece);
            assert(c2.drop_last() =~= consumed);
            assert(c2.last() == piece);
            match next {
                Some(j) => {
                    assert(split_pieces(sv, m@, i as int) =~= seq![piece] + split_pieces(sv, m@, j + m@.len()));
                    assert(consumed + split_pieces(sv, m@, i as int) =~= c2 + split_pieces(sv, m@, j + m@.len()));
                },
                None => {
                    assert(split_pieces(sv, m@, i as int) =~= seq![piece]);
                    assert(consumed + split_pieces(sv, m@, i as int) =~= c2);
                },
            }
            consumed = c2;
        }
        match next {
            Some(j) => {
                let step = m.len();
                assert(j + step <= s.len());
                i = j + step;
            },
            None => {
                done = true;
            },
        }
    }
    out
}

pub open spec fn no_certificates_message() -> Seq<char> {
    "No certificates found in chain"@
}

/// Splits a PEM chain into the leaf certificate and the rest of the chain, each as
/// bytes. Fails when the text holds no certificate.
pub fn split_certificate_chain(cert_chain: &str) -> (r: Result<(Vec<u8>, Vec<Vec<u8>>), NylonError>)
    ensures
        pem_certificates(cert_chain@).len() == 0 <==> r is Err,
        r matches Err(e) ==> (e matches NylonError::ConfigError(m) && m@ == no_certificates_message()),
        r matches Ok((cert, chain)) ==> {
            &&& cert@ == encode_utf8(pem_certificates(cert_chain@)[0])
            &&& chain@.len() == pem_certificates(cert_chain@).len() - 1
            &&& forall|i: int| 0 <= i < chain@.len() ==> #[trigger] chain@[i]@ == encode_utf8(pem_certificates(cert_chain@)[i + 1])
        },
{
    let blocks = pem_blocks(cert_chain);
    if blocks.len() == 0 {
        proof {
            reveal_strlit("No certificates found in chain");
        }
        return Err(NylonError::ConfigError(String::from_str("No certificates found in chain")));
    }
    let cert = utf8_bytes(blocks[0].as_str());
    let mut chain: Vec<Vec<u8>> = Vec::new();
    let mut i: usize = 1;
    while i < blocks.len()
        invariant
            1 <= i <= blocks@.len(),
            blocks@.len() == pem_certificates(cert_chain@).len(),
            forall|x: int| 0 <= x < blocks@.len() ==> #[trigger] blocks@[x]@ == pem_certificates(cert_chain@)[x],
            chain@.len() == i - 1,
            forall|x: int| 0 <= x < chain@.len() ==> #[trigger] chain@[x]@ == encode_utf8(pem_certificates(cert_chain@)[x + 1]),
        decreases blocks.len() - i,
    {
        chain.push(utf8_bytes(blocks[i].as_str()));
        i = i + 1;
    }
    Ok((cert, chain))
}

/// The certificates of a chain file, each as bytes (the file read as UTF-8).
pub fn parse_chain_file(data: &[u8]) -> (r: Vec<Vec<u8>>)
    ensures
        r@.len() == pem_certificates(utf8_lossy(data@)).len(),
        forall|i: int| 0 <= i < r@.len() ==> #[trigger] r@[i]@ == encode_utf8(pem_certificates(utf8_lossy(data@))[i]),
{
    let text = lossy_string(data);
    let blocks = pem_blocks(text.as_str());
    let mut out: Vec<Vec<u8>> = Vec::new();
    let mut i: usize = 0;
    while i < blocks.len()
        invariant
            i <= blocks@.len(),
            blocks@.len() == pem_certificates(utf8_lossy(data@)).len(),
            forall|x: int| 0 <= x < blocks@.len() ==> #[trigger] blocks@[x]@ == pem_certificates(utf8_lossy(data@))[x],
            out@.len() == i,
            forall|x: int| 0 <= x < out@.len() ==> #[trigger] out@[x]@ == encode_utf8(pem_certificates(utf8_lossy(data@))[x]),
        decreases blocks.len() - i,
    {
        out.push(utf8_bytes(blocks[i].as_str()));
        i = i + 1;
    }
    out
}

/// The chain in one file: all blocks one after the other.
pub open spec fn concat_all(parts: Seq<Vec<u8>>) -> Seq<u8>
    decreases parts.len(),
{
    if parts.len() == 0 { Seq::empty() } else { concat_all(parts.drop_last()) + parts.last()@ }
}

/// The full chain: the leaf certificate followed by the chain.
pub fn fullchain_bytes(cert: &[u8], chain: &Vec<Vec<u8>>) -> (r: Vec<u8>)
    ensures
        r@ == cert@ + concat_all(chain@),
{
    let mut out: Vec<u8> = Vec::new();
    let mut k: usize = 0;
    while k < cert.len()
        invariant
            k <= cert@.len(),
            out@ == cert@.subrange(0, k as int),
        decreases cert.len() - k,
    {
        out.push(cert[k]);
        k = k + 1;
        assert(out@ =~= cert@.subrange(0, k as int));
    }
    assert(cert@.subrange(0, k as int) =~= cert@);
    let mut i: usize = 0;
    while i < chain.len()
        invariant
            i <= chain@.len(),
            out@ == cert@ + concat_all(chain@.subrange(0, i as int)),
        decreases chain.len() - i,
    {
        let ghost before = out@;
        let part = &chain[i];
        let mut j: usize = 0;
        while j < part.len()
            invariant
                j <= part@.len(),
                out@ == before + part@.subrange(0, j as int),
            decreases part.len() - j,
        {
            out.push(part[j]);
            j = j + 1;
            assert(out@ =~= before + part@.subrange(0, j as int));
        }
        proof {
            assert(part@.subrange(0, j as int) =~= part@);
            let s = chain@.subrange(0, i + 1);
            assert(s.drop_last() =~= chain@.subrange(0, i as int));
            assert(out@ =~= cert@ + concat_all(s));
        }
        i = i + 1;
    }
    assert(chain@.subrange(0, i as int) =~= chain@);
    out
}

/// The state of an authorization of an ACME order (RFC 8555, section 7.1.6).
#[derive(Debug, Clone, Copy, PartialEq, Eq, Structural)]
pub enum AuthorizationStatus {
    Pending,
    Valid,
    Invalid,
    Revoked,
    Expired,
    Deactivated,
}

/// The state of an ACME order (RFC 8555, section 7.1.6).
#[derive(Debug, Clone, Copy, PartialEq, Eq, Structural)]
pub enum OrderStatus {
    Pending,
    Ready,
    Processing,
    Valid,
    Invalid,
}

/// The name of an authorization state, as its `Debug` form writes it.
pub open spec fn authorization_status_name(s: AuthorizationStatus) -> Seq<char> {
    match s {
        AuthorizationStatus::Pending => "Pending"@,
        AuthorizationStatus::Valid => "Valid"@,
        AuthorizationStatus::Invalid => "Invalid"@,
        AuthorizationStatus::Revoked => "Revoked"@,
        AuthorizationStatus::Expired => "Expired"@,
        AuthorizationStatus::Deactivated => "Deactivated"@,
    }
}

/// The name of an order state, as its `Debug` form writes it.
pub open spec fn order_status_name(s: OrderStatus) -> Seq<char> {
    match s {
        OrderStatus::Pending => "Pending"@,
        OrderStatus::Ready => "Ready"@,
        OrderStatus::Processing => "Processing"@,
        OrderStatus::Valid => "Valid"@,
        OrderStatus::Invalid => "Invalid"@,
    }
}

/// What is done with an authorization of an order.
#[derive(Debug, PartialEq, Eq, Structural)]
pub enum AuthorizationStep {
    /// Answer its HTTP-01 challenge.
    AnswerChallenge,
    /// Already valid: nothing to do.
    Skip,
}

/// What is done with an authorization in a given state: a pending one has its
/// challenge answered, a valid one is skipped, any other stops the issuance.
pub fn authorization_step(status: AuthorizationStatus) -> (r: Result<AuthorizationStep, NylonError>)
    ensures
        match status {
            AuthorizationStatus::Pending => r == Ok::<AuthorizationStep, NylonError>(AuthorizationStep::AnswerChallenge),
            AuthorizationStatus::Valid => r == Ok::<AuthorizationStep, NylonError>(AuthorizationStep::Skip),
            _ => r matches Err(NylonError::ConfigError(m))
                && m@ == "Authorization status is "@ + authorization_status_name(status),
        },
{
    proof {
        reveal_strlit("Authorization status is ");
    }
    let name = match status {
        AuthorizationStatus::Pending => {
            return Ok(AuthorizationStep::AnswerChallenge);
        },
        AuthorizationStatus::Valid => {
            return Ok(AuthorizationStep::Skip);
        },
        AuthorizationStatus::Invalid => {
            proof { reveal_strlit("Invalid"); }
            "Invalid"
        },
        AuthorizationStatus::Revoked => {
            proof { reveal_strlit("Revoked"); }
            "Revoked"
        },
        AuthorizationStatus::Expired => {
            proof { reveal_strlit("Expired"); }
            "Expired"
        },
        AuthorizationStatus::Deactivated => {
            proof { reveal_strlit("Deactivated"); }
            "Deactivated"
        },
    };
    Err(NylonError::ConfigError(String::from_str("Authorization status is ").concat(name)))
}

/// The order may be finalized once it is ready; in any other state the issuance stops.
pub fn check_order_ready(status: OrderStatus) -> (r: Result<(), NylonError>)
    ensures
        match status {
            OrderStatus::Ready => r is Ok,
            _ => r matches Err(NylonError::ConfigError(m))
                && m@ == "Order status is not ready: "@ + order_status_name(status),
        },
{
    proof {
        reveal_strlit("Order status is not ready: ");
    }
    let name = match status {
        OrderStatus::Ready => {
            return Ok(());
        },
        OrderStatus::Pending => {
            proof { reveal_strlit("Pending"); }
            "Pending"
        },
        OrderStatus::Processing => {
            proof { reveal_strlit("Processing"); }
            "Processing"
        },
        OrderStatus::Valid => {
            proof { reveal_strlit("Valid"); }
            "Valid"
        },
        OrderStatus::Invalid => {
            proof { reveal_strlit("Invalid"); }
            "Invalid"
        },
    };
    Err(NylonError::ConfigError(String::from_str("Order status is not ready: ").concat(name)))
}

} // verus!
