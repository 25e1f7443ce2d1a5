//! Options of the messaging client and the subject and header rules it applies.
use vstd::prelude::*;
use vstd::string::*;
use crate::messaging::retry::RetryPolicy;
use crate::types::plugins::OverflowPolicy;
use crate::text::{str_chars, substring};

verus! {

/// Options of a messaging (NATS) client.
#[derive(Debug, Clone)]
pub struct NatsClientOptions {
    pub servers: Vec<String>,
    pub name: Option<String>,
    pub subject_prefix: Option<String>,
    pub request_timeout_ms: u64,
    pub retry_policy: RetryPolicy,
    pub max_inflight: usize,
    pub overflow_policy: OverflowPolicy,
    /// Headers sent with every request, one entry per name.
    pub default_headers: Vec<(String, String)>,
}

impl NatsClientOptions {
    /// Options for the given servers: 500 ms timeout, the default retry policy,
    /// at most 1024 requests in flight, queueing on overflow, no headers.
    pub fn new(servers: Vec<String>) -> (r: NatsClientOptions)
        ensures
            r.servers == servers,
            r.name.is_none(),
            r.subject_prefix.is_none(),
            r.request_timeout_ms == 500,
            r.retry_policy == (RetryPolicy { max_attempts: 1, backoff_initial_ms: 50, backoff_max_ms: 250 }),
            r.max_inflight == 1024,
            r.overflow_policy == OverflowPolicy::Queue,
            r.default_headers@.len() == 0,
    {
        NatsClientOptions {
            servers,
            name: None,
            subject_prefix: None,
            request_timeout_ms: 500,
            retry_policy: RetryPolicy::default_policy(),
            max_inflight: 1024,
            overflow_policy: OverflowPolicy::default_policy(),
            default_headers: Vec::new(),
        }
    }
}

/// `s` without its trailing `c` characters.
pub open spec fn trim_end_char(s: Seq<char>, c: char) -> Seq<char>
    decreases s.len(),
{
    if s.len() > 0 && s.last() == c { trim_end_char(s.drop_last(), c) } else { s }
}

/// `s` without its leading `c` characters.
pub open spec fn trim_start_char(s: Seq<char>, c: char) -> Seq<char>
    decreases s.len(),
{
    if s.len() > 0 && s[0] == c { trim_start_char(s.drop_first(), c) } else { s }
}

/// The subject actually used: prefixed with `prefix.` unless it already starts with the prefix.
pub open spec fn spec_expand_subject(prefix: Option<Seq<char>>, subject: Seq<char>) -> Seq<char> {
    match prefix {
        Some(p) => if p.is_prefix_of(subject) {
            subject
        } else {
            trim_end_char(p, '.') + "."@ + trim_start_char(subject, '.')
        },
        None => subject,
    }
}

fn trim_end_exec(v: &Vec<char>, c: char) -> (r: usize)
    ensures
        r <= v.len(),
        v@.subrange(0, r as int) == trim_end_char(v@, c),
{
    let mut end = v.len();
    assert(v@.subrange(0, end as int) =~= v@);
    while end > 0 && v[end - 1] == c
        invariant
            end <= v.len(),
            trim_end_char(v@.subrange(0, end as int), c) == trim_end_char(v@, c),
        decreases end,
    {
        assert(v@.subrange(0, end as int).drop_last() =~= v@.subrange(0, end - 1));
        end = end - 1;
    }
    end
}

fn trim_start_exec(v: &Vec<char>, c: char) -> (r: usize)
    ensures
        r <= v.len(),
        v@.subrange(r as int, v.len() as int) == trim_start_char(v@, c),
{
    let mut start: usize = 0;
    assert(v@.subrange(0, v.len() as int) =~= v@);
    while start < v.len() && v[start] == c
        invariant
            start <= v.len(),
            trim_start_char(v@.subrange(start as int, v.len() as int), c) == trim_start_char(v@, c),
        decreases v.len() - start,
    {
        assert(v@.subrange(start as int, v.len() as int).drop_first() =~= v@.subrange(start + 1, v.len() as int));
        start = start + 1;
    }
    start
}

fn is_prefix(p: &Vec<char>, s: &Vec<char>) -> (b: bool)
    ensures
        b == p@.is_prefix_of(s@),
{
    if p.len() > s.len() {
        return false;
    }
    let mut i: usize = 0;
    while i < p.len()
        invariant
            i <= p.len() <= s.len(),
            forall|k: int| 0 <= k < i ==> p@[k] == s@[k],
        decreases p.len() - i,
    {
        if p[i] != s[i] {
            return false;
        }
        i = i + 1;
    }
    true
}

/// Prefixes a subject with the client's subject prefix (joined by one `.`),
/// unless the subject already starts with it.
pub fn expand_subject(subject_prefix: Option<&str>, subject: &str) -> (r: String)
    ensures
        r@ == spec_expand_subject(
            match subject_prefix { Some(p) => Some(p@), None => None },
            subject@,
        ),
{
    match subject_prefix {
        Some(prefix) => {
            let p = str_chars(prefix);
            let s = str_chars(subject);
            if is_prefix(&p, &s) {
                String::from_str(subject)
            } else {
                let pe = trim_end_exec(&p, '.');
                let ss = trim_start_exec(&s, '.');
                let head = substring(&p, 0, pe);
                let tail = substring(&s, ss, s.len());
                let r = head.concat(".").concat(tail.as_str());
                r
            }
        },
        None => String::from_str(subject),
    }
}

/// Entries with `k` set to `v`: the value of an existing entry is replaced, or one is appended.
pub open spec fn assoc_set(m: Seq<(Seq<char>, Seq<char>)>, k: Seq<char>, v: Seq<char>) -> Seq<(Seq<char>, Seq<char>)> {
    if exists|j: int| 0 <= j < m.len() && m[j].0 == k {
        let j = choose|j: int| 0 <= j < m.len() && m[j].0 == k;
        m.update(j, (k, v))
    } else {
        m.push((k, v))
    }
}

pub open spec fn pairs_view(s: Seq<(String, String)>) -> Seq<(Seq<char>, Seq<char>)> {
    s.map_values(|e: (String, String)| (e.0@, e.1@))
}

/// All entries of `extra[i..]` set, in order, onto `m`.
pub open spec fn assoc_set_all(m: Seq<(Seq<char>, Seq<char>)>, extra: Seq<(Seq<char>, Seq<char>)>, i: int) -> Seq<(Seq<char>, Seq<char>)>
    decreases extra.len() - i,
{
    if 0 <= i < extra.len() {
        assoc_set_all(assoc_set(m, extra[i].0, extra[i].1), extra, i + 1)
    } else {
        m
    }
}

/// Keys are distinct.
pub open spec fn keys_unique(m: Seq<(Seq<char>, Seq<char>)>) -> bool {
    forall|a: int, b: int| 0 <= a < b < m.len() ==> m[a].0 != m[b].0
}

fn set_header(m: &mut Vec<(String, String)>, k: &String, v: &String)
    requires
        keys_unique(pairs_view(old(m)@)),
    ensures
        pairs_view(final(m)@) == assoc_set(pairs_view(old(m)@), k@, v@),
        keys_unique(pairs_view(final(m)@)),
{
    let ghost pm = pairs_view(m@);
    let mut i: usize = 0;
    while i < m.len()
        invariant
            i <= m.len(),
            m@ == old(m)@,
            pm == pairs_view(m@),
            keys_unique(pm),
            forall|x: int| 0 <= x < i ==> pm[x].0 != k@,
        decreases m.len() - i,
    {
        if m[i].0 == *k {
            proof {
                assert(pm[i as int].0 == k@);
                let j = choose|j: int| 0 <= j < pm.len() && pm[j].0 == k@;
                assert(j == i);
            }
            m.set(i, (k.clone(), v.clone()));
            proof {
                assert(pairs_view(m@) =~= pm.update(i as int, (k@, v@)));
            }
            return;
        }
        i = i + 1;
    }
    m.push((k.clone(), v.clone()));
    assert(pairs_view(m@) =~= pm.push((k@, v@)));
}

/// The headers of a request: the default headers, then the extra ones over them.
/// `None` when there is no header at all.
pub fn merge_headers(defaults: &Vec<(String, String)>, extra: Option<&Vec<(String, String)>>) -> (r: Option<Vec<(String, String)>>)
    requires
        keys_unique(pairs_view(defaults@)),
    ensures
        match r {
            None => defaults@.len() == 0 && (extra.is_none() || extra.unwrap()@.len() == 0),
            Some(h) => !(defaults@.len() == 0 && (extra.is_none() || extra.unwrap()@.len() == 0))
                && keys_unique(pairs_view(h@))
                && pairs_view(h@) == assoc_set_all(pairs_view(defaults@),
                    match extra { Some(e) => pairs_view(e@), None => Seq::empty() }, 0),
        },
{
    let extra_empty = match extra {
        Some(e) => e.len() == 0,
        None => true,
    };
    if defaults.len() == 0 && extra_empty {
        return None;
    }
    let mut headers: Vec<(String, String)> = Vec::new();
    let mut i: usize = 0;
    while i < defaults.len()
        invariant
            i <= defaults.len(),
            keys_unique(pairs_view(defaults@)),
            pairs_view(headers@) == pairs_view(defaults@).subrange(0, i as int),
        decreases defaults.len() - i,
    {
        let k = defaults[i].0.clone();
        let v = defaults[i].1.clone();
        let ghost before = headers@;
        headers.push((k, v));
        assert(headers@ == before.push((k, v)));
        assert(pairs_view(headers@) =~= pairs_view(before).push((k@, v@)));
        assert(pairs_view(headers@) =~= pairs_view(defaults@).subrange(0, i + 1));
        i = i + 1;
    }
    assert(pairs_view(defaults@).subrange(0, i as int) =~= pairs_view(defaults@));
    match extra {
        Some(e) => {
            let ghost ev = pairs_view(e@);
            let mut j: usize = 0;
            while j < e.len()
                invariant
                    j <= e.len(),
                    ev == pairs_view(e@),
                    keys_unique(pairs_view(headers@)),
                    assoc_set_all(pairs_view(defaults@), ev, 0) == assoc_set_all(pairs_view(headers@), ev, j as int),
                decreases e.len() - j,
            {
                set_header(&mut headers, &e[j].0, &e[j].1);
                j = j + 1;
            }
        },
        None => {},
    }
    Some(headers)
}

} // verus!
