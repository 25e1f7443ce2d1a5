//! The process-wide key/value store that configuration loading fills and
//! request handling reads.
use vstd::prelude::*;
use vstd::string::*;
use crate::config::runtime::RuntimeConfig;

pub mod lb;
pub mod routes;
pub mod tls;
pub mod websockets;

verus! {

pub const KEY_RUNTIME_CONFIG: &'static str = "runtime_config";
pub const KEY_COMMAND_SOCKET_PATH: &'static str = "/tmp/_nylon.sock";
pub const KEY_HEADER_SELECTOR: &'static str = "header_selector";
pub const KEY_ROUTES: &'static str = "routes";
pub const KEY_TLS: &'static str = "tls";
pub const KEY_ACME_CERTS: &'static str = "acme_certs";
pub const KEY_MESSAGING_CONFIG: &'static str = "messaging_config";
pub const DEFAULT_HEADER_SELECTOR: &'static str = "x-nylon-proxy";

/// A value held in the store.
#[derive(Debug)]
pub enum StoredValue {
    Runtime(RuntimeConfig),
    Text(String),
    Table(Vec<(String, String)>),
}

/// Values by key; a key holds at most one value.
pub struct GlobalStore {
    entries: Vec<(String, StoredValue)>,
}

pub open spec fn entries_map(e: Seq<(String, StoredValue)>) -> Map<Seq<char>, StoredValue>
    decreases e.len(),
{
    if e.len() == 0 {
        Map::empty()
    } else {
        entries_map(e.drop_last()).insert(e.last().0@, e.last().1)
    }
}

pub open spec fn keys_distinct(e: Seq<(String, StoredValue)>) -> bool {
    forall|a: int, b: int| 0 <= a < b < e.len() ==> e[a].0@ != e[b].0@
}

proof fn lemma_entries_map_absent(e: Seq<(String, StoredValue)>, k: Seq<char>)
    requires
        forall|i: int| 0 <= i < e.len() ==> e[i].0@ != k,
    ensures
        !entries_map(e).contains_key(k),
    decreases e.len(),
{
    if e.len() > 0 {
        lemma_entries_map_absent(e.drop_last(), k);
    }
}

proof fn lemma_entries_map_at(e: Seq<(String, StoredValue)>, i: int)
    requires
        keys_distinct(e),
        0 <= i < e.len(),
    ensures
        entries_map(e).contains_key(e[i].0@),
        entries_map(e)[e[i].0@] == e[i].1,
    decreases e.len(),
{
    if i < e.len() - 1 {
        let d = e.drop_last();
        assert(d[i] == e[i]);
        lemma_entries_map_at(d, i);
    }
}

proof fn lemma_entries_map(e: Seq<(String, StoredValue)>)
    requires
        keys_distinct(e),
    ensures
        forall|k: Seq<char>| (forall|i: int| 0 <= i < e.len() ==> e[i].0@ != k) ==> !(#[trigger] entries_map(e).contains_key(k)),
        forall|i: int| 0 <= i < e.len() ==> entries_map(e).contains_key(#[trigger] e[i].0@) && entries_map(e)[e[i].0@] == e[i].1,
{
    assert forall|k: Seq<char>| (forall|i: int| 0 <= i < e.len() ==> e[i].0@ != k) implies !(#[trigger] entries_map(e).contains_key(k)) by {
        lemma_entries_map_absent(e, k);
    }
    assert forall|i: int| 0 <= i < e.len() implies entries_map(e).contains_key(#[trigger] e[i].0@) && entries_map(e)[e[i].0@] == e[i].1 by {
        lemma_entries_map_at(e, i);
    }
}

impl View for GlobalStore {
    type V = Map<Seq<char>, StoredValue>;

    closed spec fn view(&self) -> Map<Seq<char>, StoredValue> {
        entries_map(self.entries@)
    }
}

impl GlobalStore {
    #[verifier::type_invariant]
    closed spec fn wf(self) -> bool {
        keys_distinct(self.entries@)
    }

    /// An empty store.
    pub fn new() -> (r: GlobalStore)
        ensures
            r@ == Map::<Seq<char>, StoredValue>::empty(),
    {
        GlobalStore { entries: Vec::new() }
    }

    /// The value held under `key`.
    pub fn get(&self, key: &str) -> (r: Option<&StoredValue>)
        ensures
            match r {
                Some(v) => self@.contains_key(key@) && self@[key@] == *v,
                None => !self@.contains_key(key@),
            },
    {
        proof {
            use_type_invariant(self);
            lemma_entries_map(self.entries@);
        }
        let k = String::from_str(key);
        let mut i: usize = 0;
        while i < self.entries.len()
            invariant
                i <= self.entries.len(),
                k@ == key@,
                forall|x: int| 0 <= x < i ==> self.entries@[x].0@ != key@,
            decreases self.entries.len() - i,
        {
            if self.entries[i].0 == k {
                proof {
                    use_type_invariant(self);
                    lemma_entries_map_at(self.entries@, i as int);
                }
                return Some(&self.entries[i].1);
            }
            i = i + 1;
        }
        proof {
            lemma_entries_map_absent(self.entries@, key@);
        }
        None
    }

    /// Holds `value` under `key`, replacing what was held there.
    pub fn insert(&mut self, key: String, value: StoredValue)
        ensures
            final(self)@ == old(self)@.insert(key@, value),
    {
        proof {
            use_type_invariant(&*self);
            lemma_entries_map(self.entries@);
        }
        let ghost old_map = self@;
        let ghost e = self.entries@;
        let mut entries: Vec<(String, StoredValue)> = Vec::new();
        std::mem::swap(&mut entries, &mut self.entries);
        let mut i: usize = 0;
        let mut found = false;
        while i < entries.len()
            invariant_except_break
                i <= entries.len(),
                entries@ == e,
                !found,
                forall|x: int| 0 <= x < i ==> e[x].0@ != key@,
            ensures
                entries@ == e,
                found ==> i < e.len() && e[i as int].0@ == key@,
                !found ==> forall|x: int| 0 <= x < e.len() ==> e[x].0@ != key@,
            decreases entries.len() - i,
        {
            if entries[i].0 == key {
                found = true;
                break;
            }
            i = i + 1;
        }
        if found {
            entries.set(i, (key, value));
        } else {
            entries.push((key, value));
        }
        proof {
            let ne = entries@;
            assert(keys_distinct(ne));
            lemma_entries_map(ne);
            assert forall|k: Seq<char>| #[trigger] entries_map(ne).contains_key(k) <==> old_map.insert(key@, value).contains_key(k) by {
                if k != key@ && old_map.contains_key(k) {
                    if forall|i: int| 0 <= i < e.len() ==> e[i].0@ != k {
                    } else {
                        let i = choose|i: int| 0 <= i < e.len() && e[i].0@ == k;
                        assert(ne[i].0@ == k);
                    }
                }
                if entries_map(ne).contains_key(k) && k != key@ {
                    if forall|i: int| 0 <= i < ne.len() ==> ne[i].0@ != k {
                    } else {
                        let i = choose|i: int| 0 <= i < ne.len() && ne[i].0@ == k;
                        assert(e[i].0@ == k);
                    }
                }
                if k == key@ {
                    let j = if found { i as int } else { e.len() as int };
                    assert(ne[j].0@ == k);
                }
            }
            assert forall|k: Seq<char>| #[trigger] entries_map(ne).contains_key(k) implies entries_map(ne)[k] == old_map.insert(key@, value)[k] by {
                let x = choose|x: int| 0 <= x < ne.len() && ne[x].0@ == k;
                assert(ne[x].0@ == k);
                if k != key@ {
                    assert(e[x].0@ == k);
                }
            }
            assert(entries_map(ne) =~= old_map.insert(key@, value));
        }
        self.entries = entries;
    }
}

/// Holds `value` under `key` in the store.
pub fn insert(store: &mut GlobalStore, key: &str, value: StoredValue)
    ensures
        final(store)@ == old(store)@.insert(key@, value),
{
    store.insert(String::from_str(key), value);
}

/// The value held under `key` in the store.
pub fn get<'a>(store: &'a GlobalStore, key: &str) -> (r: Option<&'a StoredValue>)
    ensures
        match r {
            Some(v) => store@.contains_key(key@) && store@[key@] == *v,
            None => !store@.contains_key(key@),
        },
{
    store.get(key)
}

/// After a write of `value` under `key` (what `insert` leaves), a read of `key`
/// gives `value` back, and what is held under any other key is unchanged.
pub proof fn law_read_after_write(before: GlobalStore, after: GlobalStore, key: Seq<char>, value: StoredValue, other: Seq<char>)
    requires
        after@ == before@.insert(key, value),
    ensures
        after@.contains_key(key),
        after@[key] == value,
        other != key ==> after@.contains_key(other) == before@.contains_key(other),
        other != key && before@.contains_key(other) ==> after@[other] == before@[other],
{
}

} // verus!
