//! Certificates by domain: ACME-issued ones first, then configured ones.
use vstd::prelude::*;
use vstd::string::*;
use crate::error::NylonError;
use crate::text_map::TextMap;
use crate::tls::certificate::CertificateInfo;
use crate::types::tls::{AcmeConfig, TlsConfig, TlsKind};

verus! {

/// A certificate, its key and its chain, as served for a domain.
#[derive(Debug)]
pub struct TlsStore {
    pub cert: Vec<u8>,
    pub key: Vec<u8>,
    pub chain: Vec<Vec<u8>>,
}

/// The bytes of each certificate of a chain.
pub open spec fn chain_view(c: Seq<Vec<u8>>) -> Seq<Seq<u8>> {
    c.map_values(|v: Vec<u8>| v@)
}

pub fn copy_bytes(b: &Vec<u8>) -> (r: Vec<u8>)
    ensures
        r@ == b@,
{
    let mut r: Vec<u8> = Vec::new();
    let mut i: usize = 0;
    while i < b.len()
        invariant
            i <= b@.len(),
            r@ == b@.subrange(0, i as int),
        decreases b.len() - i,
    {
        r.push(b[i]);
        i = i + 1;
        assert(r@ =~= b@.subrange(0, i as int));
    }
    assert(b@.subrange(0, i as int) =~= b@);
    r
}

pub fn copy_chain(c: &Vec<Vec<u8>>) -> (r: Vec<Vec<u8>>)
    ensures
        chain_view(r@) == chain_view(c@),
{
    let mut r: Vec<Vec<u8>> = Vec::new();
    let mut i: usize = 0;
    while i < c.len()
        invariant
            i <= c@.len(),
            chain_view(r@) == chain_view(c@.subrange(0, i as int)),
        decreases c.len() - i,
    {
        let ghost before = r@;
        let item = copy_bytes(&c[i]);
        r.push(item);
        assert(r@ == before.push(item));
        assert(c@.subrange(0, i + 1) =~= c@.subrange(0, i as int).push(c@[i as int]));
        assert(chain_view(r@) =~= chain_view(before).push(item@));
        assert(chain_view(c@.subrange(0, i + 1)) =~= chain_view(c@.subrange(0, i as int)).push(c@[i as int]@));
        i = i + 1;
    }
    assert(c@.subrange(0, i as int) =~= c@);
    r
}

impl TlsStore {
    pub fn duplicate(&self) -> (r: TlsStore)
        ensures
            r.cert@ == self.cert@,
            r.key@ == self.key@,
            chain_view(r.chain@) == chain_view(self.chain@),
    {
        TlsStore { cert: copy_bytes(&self.cert), key: copy_bytes(&self.key), chain: copy_chain(&self.chain) }
    }
}

/// Some name of the list is `d`.
pub open spec fn listed(names: Seq<String>, d: Seq<char>) -> bool {
    exists|i: int| 0 <= i < names.len() && #[trigger] names[i]@ == d
}

proof fn lemma_listed_step(names: Seq<String>, i: int)
    requires
        0 <= i < names.len(),
    ensures
        forall|d: Seq<char>| listed(names.subrange(0, i + 1), d) <==> (listed(names.subrange(0, i), d) || d == names[i]@),
{
    assert forall|d: Seq<char>| listed(names.subrange(0, i + 1), d) <==> (listed(names.subrange(0, i), d) || d == names[i]@) by {
        if listed(names.subrange(0, i + 1), d) {
            let x = choose|x: int| 0 <= x < i + 1 && #[trigger] names.subrange(0, i + 1)[x]@ == d;
            if x < i {
                assert(names.subrange(0, i)[x] == names.subrange(0, i + 1)[x]);
            }
        }
        if listed(names.subrange(0, i), d) {
            let x = choose|x: int| 0 <= x < i && #[trigger] names.subrange(0, i)[x]@ == d;
            assert(names.subrange(0, i + 1)[x] == names.subrange(0, i)[x]);
        }
        if d == names[i]@ {
            assert(names.subrange(0, i + 1)[i] == names[i]);
        }
    }
}

pub open spec fn tls_not_found_message(domain: Seq<char>) -> Seq<char> {
    "TLS domain "@ + domain + " not found"@
}

/// The certificate files of a configured (custom) certificate.
pub struct CustomCertFiles {
    pub cert_path: String,
    pub key_path: String,
    pub chain_paths: Vec<String>,
}

/// The files a custom TLS entry names; both the certificate and the key are required.
pub fn custom_cert_files(t: &TlsConfig) -> (r: Result<CustomCertFiles, NylonError>)
    ensures
        t.cert.is_none() ==> (r matches Err(NylonError::ConfigError(m))
            && m@ == "Custom TLS certificate path is required"@),
        t.cert.is_some() && t.key.is_none() ==> (r matches Err(NylonError::ConfigError(m))
            && m@ == "Custom TLS key path is required"@),
        t.cert.is_some() && t.key.is_some() ==> (r matches Ok(f)
            && f.cert_path@ == t.cert.unwrap()@
            && f.key_path@ == t.key.unwrap()@
            && f.chain_paths@.len() == (match t.chain { Some(c) => c@.len(), None => 0 })
            && forall|i: int| 0 <= i < f.chain_paths@.len() ==> #[trigger] f.chain_paths@[i]@ == t.chain.unwrap()@[i]@),
{
    proof {
        reveal_strlit("Custom TLS certificate path is required");
        reveal_strlit("Custom TLS key path is required");
    }
    let cert_path = match &t.cert {
        Some(c) => c.clone(),
        None => {
            return Err(NylonError::ConfigError(String::from_str("Custom TLS certificate path is required")));
        },
    };
    let key_path = match &t.key {
        Some(k) => k.clone(),
        None => {
            return Err(NylonError::ConfigError(String::from_str("Custom TLS key path is required")));
        },
    };
    let mut chain_paths: Vec<String> = Vec::new();
    if let Some(chain) = &t.chain {
        let mut i: usize = 0;
        while i < chain.len()
            invariant
                i <= chain@.len(),
                chain_paths@.len() == i,
                forall|x: int| 0 <= x < i ==> #[trigger] chain_paths@[x]@ == chain@[x]@,
            decreases chain.len() - i,
        {
            chain_paths.push(chain[i].clone());
            i = i + 1;
        }
    }
    Ok(CustomCertFiles { cert_path, key_path, chain_paths })
}

/// The ACME settings of an entry, with the runtime's ACME directory when it names none.
pub fn acme_settings(t: &TlsConfig, acme_dir: &Option<String>) -> (r: Option<AcmeConfig>)
    ensures
        t.kind == TlsKind::Acme && t.acme.is_some() <==> r.is_some(),
        r matches Some(a) ==> {
            &&& a.provider@ == t.acme.unwrap().provider@
            &&& a.email@ == t.acme.unwrap().email@
            &&& a.acme_dir == match t.acme.unwrap().acme_dir { Some(d) => Some(d), None => *acme_dir }
        },
{
    match t.kind {
        TlsKind::Custom => None,
        TlsKind::Acme => match &t.acme {
            Some(a) => {
                let dir = match &a.acme_dir {
                    Some(d) => Some(d.clone()),
                    None => acme_dir.clone(),
                };
                Some(AcmeConfig { provider: a.provider.clone(), email: a.email.clone(), acme_dir: dir })
            },
            None => None,
        },
    }
}

/// The certificates known for each domain.
pub struct TlsRegistry {
    pub certs: TextMap<TlsStore>,
    pub acme_configs: TextMap<AcmeConfig>,
    pub acme_certs: TextMap<CertificateInfo>,
}

impl TlsRegistry {
    /// Nothing known.
    pub fn new() -> (r: TlsRegistry)
        ensures
            r.certs@ == Map::<Seq<char>, TlsStore>::empty(),
            r.acme_configs@ == Map::<Seq<char>, AcmeConfig>::empty(),
            r.acme_certs@ == Map::<Seq<char>, CertificateInfo>::empty(),
    {
        TlsRegistry { certs: TextMap::new(), acme_configs: TextMap::new(), acme_certs: TextMap::new() }
    }

    /// Serves `store` for each of `domains`.
    pub fn add_custom(&mut self, domains: &Vec<String>, store: &TlsStore)
        ensures
            forall|d: Seq<char>| #[trigger] final(self).certs@.contains_key(d) <==>
                (old(self).certs@.contains_key(d) || listed(domains@, d)),
            forall|i: int| 0 <= i < domains@.len() ==> {
                &&& final(self).certs@[#[trigger] domains@[i]@].cert@ == store.cert@
                &&& final(self).certs@[domains@[i]@].key@ == store.key@
                &&& chain_view(final(self).certs@[domains@[i]@].chain@) == chain_view(store.chain@)
            },
            forall|d: Seq<char>| !listed(domains@, d) && #[trigger] old(self).certs@.contains_key(d)
                ==> final(self).certs@[d] == old(self).certs@[d],
            final(self).acme_configs@ == old(self).acme_configs@,
            final(self).acme_certs@ == old(self).acme_certs@,
    {
        let mut i: usize = 0;
        while i < domains.len()
            invariant
                i <= domains@.len(),
                forall|d: Seq<char>| #[trigger] self.certs@.contains_key(d) <==>
                    (old(self).certs@.contains_key(d) || listed(domains@.subrange(0, i as int), d)),
                forall|x: int| 0 <= x < i ==> {
                    &&& self.certs@[#[trigger] domains@[x]@].cert@ == store.cert@
                    &&& self.certs@[domains@[x]@].key@ == store.key@
                    &&& chain_view(self.certs@[domains@[x]@].chain@) == chain_view(store.chain@)
                },
                forall|d: Seq<char>| !listed(domains@.subrange(0, i as int), d) && #[trigger] old(self).certs@.contains_key(d)
                    ==> self.certs@[d] == old(self).certs@[d],
                self.acme_configs@ == old(self).acme_configs@,
                self.acme_certs@ == old(self).acme_certs@,
            decreases domains.len() - i,
        {
            proof {
                lemma_listed_step(domains@, i as int);
            }
            let ghost pre = self.certs@;
            let name = domains[i].clone();
            self.certs.insert(name, store.duplicate());
            proof {
                assert forall|d: Seq<char>| #[trigger] self.certs@.contains_key(d) <==>
                    (old(self).certs@.contains_key(d) || listed(domains@.subrange(0, i + 1), d)) by {
                    assert(pre.contains_key(d) <==> (old(self).certs@.contains_key(d) || listed(domains@.subrange(0, i as int), d)));
                }
            }
            i = i + 1;
        }
        assert(domains@.subrange(0, i as int) =~= domains@);
    }

    /// Keeps an ACME-issued certificate for its domain, replacing an older one.
    pub fn store_acme_cert(&mut self, cert_info: CertificateInfo)
        ensures
            final(self).acme_certs@ == old(self).acme_certs@.insert(cert_info.domain@, cert_info),
            final(self).certs@ == old(self).certs@,
            final(self).acme_configs@ == old(self).acme_configs@,
    {
        let domain = cert_info.domain.clone();
        self.acme_certs.insert(domain, cert_info);
    }

    /// The certificate served for `domain`: the ACME-issued one if there is one,
    /// else the configured one.
    pub fn get_certs(&self, domain: &str) -> (r: Result<TlsStore, NylonError>)
        ensures
            self.acme_certs@.contains_key(domain@) ==> (r matches Ok(s)
                && s.cert@ == self.acme_certs@[domain@].cert@
                && s.key@ == self.acme_certs@[domain@].key@
                && chain_view(s.chain@) == chain_view(self.acme_certs@[domain@].chain@)),
            !self.acme_certs@.contains_key(domain@) && self.certs@.contains_key(domain@) ==> (r matches Ok(s)
                && s.cert@ == self.certs@[domain@].cert@
                && s.key@ == self.certs@[domain@].key@
                && chain_view(s.chain@) == chain_view(self.certs@[domain@].chain@)),
            !self.acme_certs@.contains_key(domain@) && !self.certs@.contains_key(domain@) ==> (r matches Err(NylonError::ConfigError(m))
                && m@ == tls_not_found_message(domain@)),
    {
        if let Some(info) = self.acme_certs.get(domain) {
            return Ok(TlsStore { cert: copy_bytes(&info.cert), key: copy_bytes(&info.key), chain: copy_chain(&info.chain) });
        }
        match self.certs.get(domain) {
            Some(s) => Ok(s.duplicate()),
            None => {
                proof {
                    reveal_strlit("TLS domain ");
                    reveal_strlit(" not found");
                }
                Err(NylonError::ConfigError(String::from_str("TLS domain ").concat(domain).concat(" not found")))
            },
        }
    }

    /// The domains with an ACME-issued certificate.
    pub fn acme_domains(&self) -> (r: Vec<String>)
        ensures
            forall|i: int| 0 <= i < r@.len() ==> self.acme_certs@.contains_key(#[trigger] r@[i]@),
            forall|d: Seq<char>| self.acme_certs@.contains_key(d) ==> exists|i: int| 0 <= i < r@.len() && r@[i]@ == d,
    {
        self.acme_certs.keys()
    }
}

} // verus!
