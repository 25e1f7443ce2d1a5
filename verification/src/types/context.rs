//! The per-request state that plugins read and change.
use vstd::prelude::*;
use vstd::string::*;
use crate::assoc::{pairs_map, unique_keys, lemma_pairs_map_update, lemma_pairs_map_push, lemma_pairs_map_at, lemma_pairs_map_absent};

verus! {

/// The characters of each name and value.
pub open spec fn text_pairs(s: Seq<(String, String)>) -> Seq<(Seq<char>, Seq<char>)> {
    s.map_values(|p: (String, String)| (p.0@, p.1@))
}

/// Header values by name; a name holds one value.
pub struct HeaderTable {
    entries: Vec<(String, String)>,
}

impl View for HeaderTable {
    type V = Map<Seq<char>, Seq<char>>;

    closed spec fn view(&self) -> Map<Seq<char>, Seq<char>> {
        pairs_map(text_pairs(self.entries@))
    }
}

impl HeaderTable {
    #[verifier::type_invariant]
    closed spec fn wf(self) -> bool {
        unique_keys(text_pairs(self.entries@))
    }

    /// An empty table.
    pub fn new() -> (r: HeaderTable)
        ensures
            r@ == Map::<Seq<char>, Seq<char>>::empty(),
    {
        let r = HeaderTable { entries: Vec::new() };
        assert(pairs_map(text_pairs(r.entries@)) =~= Map::<Seq<char>, Seq<char>>::empty());
        r
    }

    /// Sets the value of `name`, replacing the value it had.
    pub fn insert(&mut self, name: String, value: String)
        ensures
            final(self)@ == old(self)@.insert(name@, value@),
    {
        proof {
            use_type_invariant(&*self);
        }
        let ghost old_entries = self.entries@;
        let mut entries: Vec<(String, String)> = Vec::new();
        std::mem::swap(&mut entries, &mut self.entries);
        let mut i: usize = 0;
        let mut found = false;
        while i < entries.len()
            invariant_except_break
                i <= entries.len(),
                !found,
                forall|x: int| 0 <= x < i ==> text_pairs(entries@)[x].0 != name@,
            invariant
                entries@ == old_entries,
                unique_keys(text_pairs(entries@)),
            ensures
                found ==> i < entries.len() && text_pairs(entries@)[i as int].0 == name@,
                !found ==> forall|x: int| 0 <= x < entries.len() ==> text_pairs(entries@)[x].0 != name@,
            decreases entries.len() - i,
        {
            if entries[i].0 == name {
                found = true;
                break;
            }
            i = i + 1;
        }
        let ghost before = entries@;
        if found {
            proof {
                lemma_pairs_map_update(text_pairs(entries@), i as int, value@);
            }
            entries.set(i, (name, value));
            proof {
                assert(text_pairs(entries@) =~= text_pairs(before).update(i as int, (name@, value@)));
            }
        } else {
            proof {
                lemma_pairs_map_push(text_pairs(entries@), name@, value@);
            }
            entries.push((name, value));
            proof {
                assert(text_pairs(entries@) =~= text_pairs(before).push((name@, value@)));
            }
        }
        self.entries = entries;
    }

    /// The value of `name`.
    pub fn get(&self, name: &str) -> (r: Option<&String>)
        ensures
            match r {
                Some(v) => self@.contains_key(name@) && self@[name@] == v@,
                None => !self@.contains_key(name@),
            },
    {
        proof {
            use_type_invariant(self);
        }
        let key = String::from_str(name);
        let mut i: usize = 0;
        while i < self.entries.len()
            invariant
                i <= self.entries.len(),
                key@ == name@,
                forall|x: int| 0 <= x < i ==> text_pairs(self.entries@)[x].0 != name@,
            decreases self.entries.len() - i,
        {
            if self.entries[i].0 == key {
                proof {
                    use_type_invariant(self);
                    lemma_pairs_map_at(text_pairs(self.entries@), i as int);
                }
                return Some(&self.entries[i].1);
            }
            i = i + 1;
        }
        proof {
            lemma_pairs_map_absent(text_pairs(self.entries@), name@);
        }
        None
    }

    /// The number of names.
    pub fn len(&self) -> (r: usize)
        ensures
            r == self@.len(),
    {
        proof {
            use_type_invariant(self);
            lemma_pairs_map_len(text_pairs(self.entries@));
        }
        self.entries.len()
    }

    /// The pairs of the table, each name once, in the order they were first set.
    pub fn entries(&self) -> (r: &Vec<(String, String)>)
        ensures
            unique_keys(text_pairs(r@)),
            pairs_map(text_pairs(r@)) == self@,
    {
        proof {
            use_type_invariant(self);
        }
        &self.entries
    }
}

/// With unique keys, the map has as many keys as there are pairs.
proof fn lemma_pairs_map_len(s: Seq<(Seq<char>, Seq<char>)>)
    requires
        unique_keys(s),
    ensures
        pairs_map(s).dom().finite(),
        pairs_map(s).len() == s.len(),
    decreases s.len(),
{
    if s.len() > 0 {
        let d = s.drop_last();
        assert(unique_keys(d));
        lemma_pairs_map_len(d);
        assert forall|i: int| 0 <= i < d.len() implies d[i].0 != s.last().0 by {
            assert(d[i] == s[i]);
        }
        lemma_pairs_map_absent(d, s.last().0);
    }
}

impl Clone for HeaderTable {
    fn clone(&self) -> (r: HeaderTable)
        ensures
            r@ == self@,
    {
        proof {
            use_type_invariant(self);
        }
        let mut entries: Vec<(String, String)> = Vec::new();
        let mut i: usize = 0;
        while i < self.entries.len()
            invariant
                i <= self.entries.len(),
                unique_keys(text_pairs(self.entries@)),
                text_pairs(entries@) == text_pairs(self.entries@).subrange(0, i as int),
            decreases self.entries.len() - i,
        {
            let ghost before = entries@;
            entries.push((self.entries[i].0.clone(), self.entries[i].1.clone()));
            proof {
                assert(text_pairs(entries@) =~= text_pairs(before).push(text_pairs(self.entries@)[i as int]));
                assert(text_pairs(entries@) =~= text_pairs(self.entries@).subrange(0, i + 1));
            }
            i = i + 1;
        }
        proof {
            assert(text_pairs(entries@) =~= text_pairs(self.entries@));
        }
        HeaderTable { entries }
    }
}

/// What a request has gathered so far and what plugins asked to change in its
/// response. The proxy keeps the upstream backend, the matched route and the
/// open plugin streams beside it.
pub struct NylonContext {
    pub client_ip: String,
    pub params: Option<Vec<(String, String)>>,
    pub host: String,
    pub port: String,
    pub tls: bool,
    /// Plugin session of each `plugin-entry` key.
    pub session_ids: Vec<(String, u32)>,
    pub add_response_header: HeaderTable,
    pub remove_response_header: Vec<String>,
    pub set_response_status: u16,
    pub set_response_body: Vec<u8>,
    pub read_body: bool,
    pub request_body: Vec<u8>,
    /// When the request came in, in milliseconds since the Unix epoch.
    pub request_timestamp: u64,
    pub error_message: Option<String>,
}

impl NylonContext {
    /// A fresh context: client 127.0.0.1, status 200, nothing else set.
    pub fn new() -> (r: NylonContext)
        ensures
            r.client_ip@ == "127.0.0.1"@,
            r.params.is_none(),
            r.host@.len() == 0,
            r.port@.len() == 0,
            !r.tls,
            r.session_ids@.len() == 0,
            r.add_response_header@ == Map::<Seq<char>, Seq<char>>::empty(),
            r.remove_response_header@.len() == 0,
            r.set_response_status == 200,
            r.set_response_body@.len() == 0,
            !r.read_body,
            r.request_body@.len() == 0,
            r.request_timestamp == 0,
            r.error_message.is_none(),
    {
        proof {
            reveal_strlit("127.0.0.1");
            reveal_strlit("");
        }
        NylonContext {
            client_ip: String::from_str("127.0.0.1"),
            params: None,
            host: String::from_str(""),
            port: String::from_str(""),
            tls: false,
            session_ids: Vec::new(),
            add_response_header: HeaderTable::new(),
            remove_response_header: Vec::new(),
            set_response_status: 200,
            set_response_body: Vec::new(),
            read_body: false,
            request_body: Vec::new(),
            request_timestamp: 0,
            error_message: None,
        }
    }
}

} // verus!
