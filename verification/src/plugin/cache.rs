//! The cache of encoded header lists: keyed by the headers sorted by name, each
//! entry kept for five minutes, stale entries dropped once the cache is full.
use vstd::prelude::*;
use vstd::multiset::Multiset;
use crate::messaging::options::pairs_view;
use crate::text::str_chars;

verus! {

/// `a` comes before `b` in the order of `str`: character by character (the order
/// of their UTF-8 bytes), a proper prefix first.
pub open spec fn text_less(a: Seq<char>, b: Seq<char>) -> bool
    decreases a.len(),
{
    if a.len() == 0 {
        b.len() > 0
    } else if b.len() == 0 {
        false
    } else if a[0] != b[0] {
        (a[0] as int) < (b[0] as int)
    } else {
        text_less(a.drop_first(), b.drop_first())
    }
}

/// Whether `a` comes before `b` in the order of `str`.
pub fn name_less(a: &str, b: &str) -> (r: bool)
    ensures
        r == text_less(a@, b@),
{
    let x = str_chars(a);
    let y = str_chars(b);
    let mut i: usize = 0;
    assert(x@.subrange(0, x@.len() as int) =~= x@);
    assert(y@.subrange(0, y@.len() as int) =~= y@);
    while i < x.len() && i < y.len()
        invariant
            i <= x@.len(),
            i <= y@.len(),
            x@ == a@,
            y@ == b@,
            text_less(a@, b@) == text_less(x@.subrange(i as int, x@.len() as int), y@.subrange(i as int, y@.len() as int)),
        decreases x.len() - i,
    {
        let ghost xs = x@.subrange(i as int, x@.len() as int);
        let ghost ys = y@.subrange(i as int, y@.len() as int);
        if x[i] != y[i] {
            assert(xs[0] == x@[i as int] && ys[0] == y@[i as int]);
            return x[i] < y[i];
        }
        assert(xs.drop_first() =~= x@.subrange(i + 1, x@.len() as int));
        assert(ys.drop_first() =~= y@.subrange(i + 1, y@.len() as int));
        i = i + 1;
    }
    x.len() - i == 0 && y.len() - i > 0
}

/// `s` with `x` put after every pair whose name does not come after its own.
pub open spec fn insert_by_name(s: Seq<(Seq<char>, Seq<char>)>, x: (Seq<char>, Seq<char>)) -> Seq<(Seq<char>, Seq<char>)>
    decreases s.len(),
{
    if s.len() == 0 {
        seq![x]
    } else if text_less(x.0, s[0].0) {
        seq![x] + s
    } else {
        seq![s[0]] + insert_by_name(s.drop_first(), x)
    }
}

/// The pairs sorted by name, pairs of the same name kept in their order (a stable sort).
pub open spec fn sort_by_name(s: Seq<(Seq<char>, Seq<char>)>) -> Seq<(Seq<char>, Seq<char>)>
    decreases s.len(),
{
    if s.len() == 0 {
        Seq::empty()
    } else {
        insert_by_name(sort_by_name(s.drop_last()), s.last())
    }
}

proof fn lemma_insert_at(s: Seq<(Seq<char>, Seq<char>)>, x: (Seq<char>, Seq<char>), j: int)
    requires
        0 <= j <= s.len(),
        forall|k: int| 0 <= k < j ==> !text_less(x.0, #[trigger] s[k].0),
        j == s.len() || text_less(x.0, s[j].0),
    ensures
        insert_by_name(s, x) == s.insert(j, x),
    decreases s.len(),
{
    if s.len() == 0 {
        assert(s.insert(j, x) =~= seq![x]);
    } else if j == 0 {
        assert(s.insert(j, x) =~= seq![x] + s);
    } else {
        let d = s.drop_first();
        assert forall|k: int| 0 <= k < j - 1 implies !text_less(x.0, #[trigger] d[k].0) by {
            assert(d[k] == s[k + 1]);
        }
        if j < s.len() {
            assert(d[j - 1] == s[j]);
        }
        lemma_insert_at(d, x, j - 1);
        assert(s.insert(j, x) =~= seq![s[0]] + d.insert(j - 1, x));
    }
}

/// The key of a header list in the cache: the headers sorted by name, as
/// `sort_by` with a comparison of the names does it.
pub fn headers_cache_key(headers: &Vec<(String, String)>) -> (r: Vec<(String, String)>)
    ensures
        pairs_view(r@) == sort_by_name(pairs_view(headers@)),
{
    let ghost hv = pairs_view(headers@);
    let mut out: Vec<(String, String)> = Vec::new();
    let mut i: usize = 0;
    assert(hv.subrange(0, 0) =~= Seq::<(Seq<char>, Seq<char>)>::empty());
    assert(pairs_view(out@) =~= Seq::<(Seq<char>, Seq<char>)>::empty());
    while i < headers.len()
        invariant
            i <= headers@.len(),
            hv == pairs_view(headers@),
            pairs_view(out@) == sort_by_name(hv.subrange(0, i as int)),
        decreases headers.len() - i,
    {
        let x = (headers[i].0.clone(), headers[i].1.clone());
        let ghost xv = (x.0@, x.1@);
        assert(xv == hv[i as int]);
        let mut j: usize = 0;
        while j < out.len() && !name_less(x.0.as_str(), out[j].0.as_str())
            invariant
                j <= out@.len(),
                xv.0 == x.0@,
                forall|k: int| 0 <= k < j ==> !text_less(xv.0, #[trigger] pairs_view(out@)[k].0),
            decreases out.len() - j,
        {
            assert(pairs_view(out@)[j as int].0 == out@[j as int].0@);
            j = j + 1;
        }
        let ghost before = pairs_view(out@);
        assert(j < out@.len() ==> before[j as int].0 == out@[j as int].0@);
        proof {
            lemma_insert_at(before, xv, j as int);
            assert(hv.subrange(0, i + 1).drop_last() =~= hv.subrange(0, i as int));
        }
        out.insert(j, x);
        assert(pairs_view(out@) =~= before.insert(j as int, xv));
        i = i + 1;
    }
    assert(hv.subrange(0, i as int) =~= hv);
    out
}

proof fn lemma_less_irreflexive(a: Seq<char>)
    ensures
        !text_less(a, a),
    decreases a.len(),
{
    if a.len() > 0 {
        lemma_less_irreflexive(a.drop_first());
    }
}

proof fn lemma_less_transitive(a: Seq<char>, b: Seq<char>, c: Seq<char>)
    requires
        text_less(a, b),
        text_less(b, c),
    ensures
        text_less(a, c),
    decreases a.len(),
{
    if a.len() > 0 && b.len() > 0 && c.len() > 0 && a[0] == b[0] && b[0] == c[0] {
        lemma_less_transitive(a.drop_first(), b.drop_first(), c.drop_first());
    }
}

proof fn lemma_less_total(a: Seq<char>, b: Seq<char>)
    ensures
        a == b || text_less(a, b) || text_less(b, a),
    decreases a.len(),
{
    if a.len() == 0 && b.len() == 0 {
        assert(a =~= b);
    } else if a.len() > 0 && b.len() > 0 && a[0] != b[0] {
        assert((a[0] as int) != (b[0] as int));
    } else if a.len() > 0 && b.len() > 0 && a[0] == b[0] {
        lemma_less_total(a.drop_first(), b.drop_first());
        if a.drop_first() == b.drop_first() {
            assert(a.drop_first().len() == a.len() - 1);
            assert(b.drop_first().len() == b.len() - 1);
            assert(a.len() == b.len());
            assert forall|i: int| 0 <= i < a.len() implies a[i] == b[i] by {
                if i > 0 {
                    assert(a[i] == a.drop_first()[i - 1]);
                    assert(b[i] == b.drop_first()[i - 1]);
                }
            }
            assert(a =~= b);
        }
    }
}

/// No pair has a name that comes before the name of an earlier pair.
pub open spec fn sorted_by_name(s: Seq<(Seq<char>, Seq<char>)>) -> bool {
    forall|i: int, j: int| 0 <= i < j < s.len() ==> !text_less(#[trigger] s[j].0, #[trigger] s[i].0)
}

/// No two pairs share a name.
pub open spec fn names_distinct(s: Seq<(Seq<char>, Seq<char>)>) -> bool {
    forall|i: int, j: int| 0 <= i < j < s.len() ==> #[trigger] s[i].0 != #[trigger] s[j].0
}

/// Pairs of the multiset with the same name are the same pair.
pub open spec fn one_value_per_name(m: Multiset<(Seq<char>, Seq<char>)>) -> bool {
    forall|x: (Seq<char>, Seq<char>), y: (Seq<char>, Seq<char>)|
        #[trigger] m.count(x) > 0 && #[trigger] m.count(y) > 0 && x.0 == y.0 ==> x == y
}

/// Where `insert_by_name` puts `x`.
pub open spec fn insert_pos(s: Seq<(Seq<char>, Seq<char>)>, x: (Seq<char>, Seq<char>)) -> int
    decreases s.len(),
{
    if s.len() == 0 {
        0
    } else if text_less(x.0, s[0].0) {
        0
    } else {
        1 + insert_pos(s.drop_first(), x)
    }
}

proof fn lemma_insert_pos(s: Seq<(Seq<char>, Seq<char>)>, x: (Seq<char>, Seq<char>))
    ensures
        0 <= insert_pos(s, x) <= s.len(),
        forall|k: int| 0 <= k < insert_pos(s, x) ==> !text_less(x.0, #[trigger] s[k].0),
        insert_pos(s, x) < s.len() ==> text_less(x.0, s[insert_pos(s, x)].0),
        insert_by_name(s, x) == s.insert(insert_pos(s, x), x),
    decreases s.len(),
{
    let p = insert_pos(s, x);
    if s.len() > 0 && !text_less(x.0, s[0].0) {
        let d = s.drop_first();
        lemma_insert_pos(d, x);
        assert forall|k: int| 0 <= k < p implies !text_less(x.0, #[trigger] s[k].0) by {
            if k > 0 {
                assert(s[k] == d[k - 1]);
            }
        }
        if p < s.len() {
            assert(s[p] == d[p - 1]);
        }
    }
    lemma_insert_at(s, x, p);
}

proof fn lemma_sort_props(s: Seq<(Seq<char>, Seq<char>)>)
    ensures
        sorted_by_name(sort_by_name(s)),
        sort_by_name(s).to_multiset() == s.to_multiset(),
    decreases s.len(),
{
    broadcast use vstd::seq_lib::group_to_multiset_ensures;
    if s.len() > 0 {
        let d = s.drop_last();
        let x = s.last();
        lemma_sort_props(d);
        let t = sort_by_name(d);
        lemma_insert_pos(t, x);
        let p = insert_pos(t, x);
        let r = t.insert(p, x);
        vstd::seq_lib::to_multiset_insert(t, p, x);
        assert(s =~= d.push(x));
        assert forall|i: int, j: int| 0 <= i < j < r.len() implies !text_less(#[trigger] r[j].0, #[trigger] r[i].0) by {
            if j < p {
                assert(r[i] == t[i] && r[j] == t[j]);
            } else if j == p {
                assert(r[i] == t[i] && r[j] == x);
            } else if i < p {
                assert(r[i] == t[i] && r[j] == t[j - 1]);
                assert(!text_less(t[j - 1].0, t[i].0));
            } else if i == p {
                assert(r[i] == x && r[j] == t[j - 1]);
                if text_less(t[j - 1].0, x.0) {
                    lemma_less_transitive(t[j - 1].0, x.0, t[p].0);
                    if j - 1 == p {
                        lemma_less_irreflexive(t[p].0);
                    }
                }
            } else {
                assert(r[i] == t[i - 1] && r[j] == t[j - 1]);
            }
        }
    }
}

proof fn lemma_sorted_same_multiset(a: Seq<(Seq<char>, Seq<char>)>, b: Seq<(Seq<char>, Seq<char>)>)
    requires
        sorted_by_name(a),
        sorted_by_name(b),
        a.to_multiset() == b.to_multiset(),
        one_value_per_name(a.to_multiset()),
    ensures
        a == b,
    decreases a.len(),
{
    broadcast use vstd::seq_lib::group_to_multiset_ensures;
    broadcast use vstd::multiset::group_multiset_axioms;
    if a.len() == 0 {
        assert(b.to_multiset().len() == 0);
        assert(a =~= b);
    } else {
        vstd::seq_lib::to_multiset_len(a);
        vstd::seq_lib::to_multiset_len(b);
        assert(b.len() == a.len());
        let a0 = a[0];
        let b0 = b[0];
        assert(a.contains(a0));
        assert(b.contains(b0));
        vstd::seq_lib::to_multiset_contains(a, a0);
        vstd::seq_lib::to_multiset_contains(b, a0);
        vstd::seq_lib::to_multiset_contains(a, b0);
        vstd::seq_lib::to_multiset_contains(b, b0);
        assert(b.contains(a0));
        assert(a.contains(b0));
        let q = choose|q: int| 0 <= q < b.len() && b[q] == a0;
        let p = choose|p: int| 0 <= p < a.len() && a[p] == b0;
        if q > 0 {
            assert(!text_less(b[q].0, b[0].0));
        }
        if p > 0 {
            assert(!text_less(a[p].0, a[0].0));
        }
        lemma_less_total(a0.0, b0.0);
        if a0.0 != b0.0 {
            if text_less(a0.0, b0.0) {
                lemma_less_irreflexive(a0.0);
                assert(q > 0);
            } else {
                lemma_less_irreflexive(b0.0);
                assert(p > 0);
            }
        }
        assert(a0 == b0);
        let a1 = a.drop_first();
        let b1 = b.drop_first();
        assert(a.remove(0) =~= a1);
        assert(b.remove(0) =~= b1);
        assert(a1.to_multiset() == a.to_multiset().remove(a0));
        assert(b1.to_multiset() == b.to_multiset().remove(b0));
        assert forall|x: (Seq<char>, Seq<char>), y: (Seq<char>, Seq<char>)|
            #[trigger] a1.to_multiset().count(x) > 0 && #[trigger] a1.to_multiset().count(y) > 0 && x.0 == y.0 implies x == y by {
            assert(a.to_multiset().count(x) > 0);
            assert(a.to_multiset().count(y) > 0);
        }
        assert forall|i: int, j: int| 0 <= i < j < a1.len() implies !text_less(#[trigger] a1[j].0, #[trigger] a1[i].0) by {
            assert(a1[i] == a[i + 1] && a1[j] == a[j + 1]);
        }
        assert forall|i: int, j: int| 0 <= i < j < b1.len() implies !text_less(#[trigger] b1[j].0, #[trigger] b1[i].0) by {
            assert(b1[i] == b[i + 1] && b1[j] == b[j + 1]);
        }
        lemma_sorted_same_multiset(a1, b1);
        assert forall|i: int| 0 <= i < a.len() implies a[i] == b[i] by {
            if i > 0 {
                assert(a[i] == a1[i - 1] && b[i] == b1[i - 1]);
            }
        }
        assert(a =~= b);
    }
}

/// The cache key does not depend on the order of the headers: two lists with the
/// same pairs, each name once, have the same key.
pub proof fn law_cache_key_order_independent(a: Seq<(Seq<char>, Seq<char>)>, b: Seq<(Seq<char>, Seq<char>)>)
    requires
        a.to_multiset() == b.to_multiset(),
        names_distinct(a),
    ensures
        sort_by_name(a) == sort_by_name(b),
{
    broadcast use vstd::seq_lib::group_to_multiset_ensures;
    lemma_sort_props(a);
    lemma_sort_props(b);
    assert forall|x: (Seq<char>, Seq<char>), y: (Seq<char>, Seq<char>)|
        #[trigger] a.to_multiset().count(x) > 0 && #[trigger] a.to_multiset().count(y) > 0 && x.0 == y.0 implies x == y by {
        assert(a.contains(x));
        assert(a.contains(y));
        let i = choose|i: int| 0 <= i < a.len() && a[i] == x;
        let j = choose|j: int| 0 <= j < a.len() && a[j] == y;
        if i < j {
            assert(a[i].0 != a[j].0);
        } else if j < i {
            assert(a[j].0 != a[i].0);
        }
    }
    lemma_sorted_same_multiset(sort_by_name(a), sort_by_name(b));
}

/// At this many entries, stale ones are dropped before another goes in.
pub const CACHE_SIZE_LIMIT: usize = 1000;

/// How long, in seconds, an entry is served from the cache.
pub const CACHE_TTL_SECS: u64 = 300;

/// An encoded header list and when it was made (seconds on a monotonic clock).
pub struct CachedFlatBuffer {
    pub data: Vec<u8>,
    pub last_used: u64,
}

/// An entry made at `last_used` is still served at `now`: less than five minutes
/// have passed (none when the clock reads earlier).
pub open spec fn fresh(last_used: u64, now: u64) -> bool {
    (if now >= last_used { now - last_used } else { 0 }) < CACHE_TTL_SECS
}

/// Whether an entry is still served at `now`.
pub fn entry_is_fresh(entry: &CachedFlatBuffer, now: u64) -> (r: bool)
    ensures
        r == fresh(entry.last_used, now),
{
    now.saturating_sub(entry.last_used) < CACHE_TTL_SECS
}

/// The entries of `m` still served at `now`.
pub open spec fn keep_fresh(m: Map<Seq<(Seq<char>, Seq<char>)>, (Seq<u8>, u64)>, now: u64) -> Map<Seq<(Seq<char>, Seq<char>)>, (Seq<u8>, u64)> {
    Map::new(|k: Seq<(Seq<char>, Seq<char>)>| m.contains_key(k) && fresh(m[k].1, now), |k: Seq<(Seq<char>, Seq<char>)>| m[k])
}

#[verifier::external_type_specification]
#[verifier::external_body]
#[verifier::reject_recursive_types(K)]
#[verifier::reject_recursive_types(V)]
#[verifier::reject_recursive_types(S)]
pub struct ExDashMap<K, V, S>(dashmap::DashMap<K, V, S>);

/// What a map of encoded header lists holds: for each key (a header list, by
/// the text of its names and values), the encoding and when it was made.
pub uninterp spec fn cache_contents(m: dashmap::DashMap<Vec<(String, String)>, CachedFlatBuffer>) -> Map<Seq<(Seq<char>, Seq<char>)>, (Seq<u8>, u64)>;

/// No entry.
pub open spec fn no_entries() -> Map<Seq<(Seq<char>, Seq<char>)>, (Seq<u8>, u64)> {
    Map::empty()
}

/// Calls `dashmap::DashMap::with_capacity`: an empty map.
#[verifier::external_body]
fn cache_map_new(capacity: usize) -> (r: dashmap::DashMap<Vec<(String, String)>, CachedFlatBuffer>)
    ensures
        cache_contents(r) == no_entries(),
{
    dashmap::DashMap::with_capacity(capacity)
}

/// Calls `dashmap::DashMap::get` and copies the entry of `key` out, if there is one.
/// Keys are equal when their names and values are (`Vec` and `String` equality).
#[verifier::external_body]
fn cache_map_get(m: &dashmap::DashMap<Vec<(String, String)>, CachedFlatBuffer>, key: &Vec<(String, String)>) -> (r: Option<(Vec<u8>, u64)>)
    ensures
        match r {
            Some((d, t)) => cache_contents(*m).contains_key(pairs_view(key@))
                && d@ == cache_contents(*m)[pairs_view(key@)].0 && t == cache_contents(*m)[pairs_view(key@)].1,
            None => !cache_contents(*m).contains_key(pairs_view(key@)),
        },
{
    m.get(key).map(|e| (e.data.clone(), e.last_used))
}

/// Calls `dashmap::DashMap::insert`: `key` now holds `value`, replacing what it held.
#[verifier::external_body]
fn cache_map_insert(m: &mut dashmap::DashMap<Vec<(String, String)>, CachedFlatBuffer>, key: Vec<(String, String)>, value: CachedFlatBuffer)
    ensures
        cache_contents(*final(m)) == cache_contents(*old(m)).insert(pairs_view(key@), (value.data@, value.last_used)),
{
    m.insert(key, value);
}

/// Calls `dashmap::DashMap::retain` with `entry_is_fresh`: only the entries still
/// served at `now` are kept.
#[verifier::external_body]
fn cache_map_retain_fresh(m: &mut dashmap::DashMap<Vec<(String, String)>, CachedFlatBuffer>, now: u64)
    ensures
        cache_contents(*final(m)) == keep_fresh(cache_contents(*old(m)), now),
{
    m.retain(|_, v| entry_is_fresh(v, now));
}

/// Calls `dashmap::DashMap::clear`: nothing is left.
#[verifier::external_body]
fn cache_map_clear(m: &mut dashmap::DashMap<Vec<(String, String)>, CachedFlatBuffer>)
    ensures
        cache_contents(*final(m)) == no_entries(),
{
    m.clear();
}

/// Calls `dashmap::DashMap::len`: the number of entries.
#[verifier::external_body]
fn cache_map_len(m: &dashmap::DashMap<Vec<(String, String)>, CachedFlatBuffer>) -> (r: usize)
    ensures
        r == cache_contents(*m).len(),
{
    m.len()
}

/// Calls `dashmap::DashMap::capacity`: how many entries fit before the map
/// grows, the sum over the shards of their entries and their room left, so
/// never less than the number of entries. How much room is left depends on the
/// allocation and is not stated.
#[verifier::external_body]
fn cache_map_capacity(m: &dashmap::DashMap<Vec<(String, String)>, CachedFlatBuffer>) -> (r: usize)
    ensures
        r >= cache_contents(*m).len(),
{
    m.capacity()
}

/// Encoded header lists by key.
pub struct HeadersCache {
    map: dashmap::DashMap<Vec<(String, String)>, CachedFlatBuffer>,
}

impl View for HeadersCache {
    type V = Map<Seq<(Seq<char>, Seq<char>)>, (Seq<u8>, u64)>;

    closed spec fn view(&self) -> Self::V {
        cache_contents(self.map)
    }
}

impl HeadersCache {
    /// An empty cache, with room for 128 entries to start with.
    pub fn new() -> (r: HeadersCache)
        ensures
            r@ == no_entries(),
    {
        HeadersCache { map: cache_map_new(128) }
    }

    /// The encoding held for `key`, if it is still served at `now`.
    pub fn get_fresh(&self, key: &Vec<(String, String)>, now: u64) -> (r: Option<Vec<u8>>)
        ensures
            match r {
                Some(d) => self@.contains_key(pairs_view(key@)) && fresh(self@[pairs_view(key@)].1, now)
                    && d@ == self@[pairs_view(key@)].0,
                None => !(self@.contains_key(pairs_view(key@)) && fresh(self@[pairs_view(key@)].1, now)),
            },
    {
        match cache_map_get(&self.map, key) {
            Some((data, last_used)) => {
                if now.saturating_sub(last_used) < CACHE_TTL_SECS {
                    Some(data)
                } else {
                    None
                }
            },
            None => None,
        }
    }

    /// Holds `data` for `key`, made at `now`, replacing what was held for it.
    /// A full cache first drops the entries no longer served at `now`.
    pub fn put(&mut self, key: Vec<(String, String)>, data: Vec<u8>, now: u64)
        ensures
            final(self)@ == (if old(self)@.len() >= CACHE_SIZE_LIMIT { keep_fresh(old(self)@, now) } else { old(self)@ })
                .insert(pairs_view(key@), (data@, now)),
    {
        if cache_map_len(&self.map) >= CACHE_SIZE_LIMIT {
            cache_map_retain_fresh(&mut self.map, now);
        }
        cache_map_insert(&mut self.map, key, CachedFlatBuffer { data, last_used: now });
    }

    /// The number of entries.
    pub fn len(&self) -> (r: usize)
        ensures
            r == self@.len(),
    {
        cache_map_len(&self.map)
    }

    /// How many entries fit before the cache grows: at least the number of
    /// entries; the room beyond that depends on the allocation.
    pub fn capacity(&self) -> (r: usize)
        ensures
            r >= self@.len(),
    {
        cache_map_capacity(&self.map)
    }

    /// Drops every entry.
    pub fn clear(&mut self)
        ensures
            final(self)@ == no_entries(),
    {
        cache_map_clear(&mut self.map);
    }
}

/// The cache holds a fresh entry for `key` at `now`.
pub open spec fn serves(m: Map<Seq<(Seq<char>, Seq<char>)>, (Seq<u8>, u64)>, key: Seq<(Seq<char>, Seq<char>)>, now: u64) -> bool {
    m.contains_key(key) && fresh(m[key].1, now)
}

/// A build of the encoding of the headers `h` at `now`, which gave `r`, took the
/// cache from `old` to `new`: a fresh entry under the headers sorted by name is
/// returned and nothing changes; else the new encoding is put under that key
/// (after dropping the stale entries of a full cache).
pub open spec fn build_outcome(
    old: Map<Seq<(Seq<char>, Seq<char>)>, (Seq<u8>, u64)>,
    h: Seq<(Seq<char>, Seq<char>)>,
    now: u64,
    r: Seq<u8>,
    new: Map<Seq<(Seq<char>, Seq<char>)>, (Seq<u8>, u64)>,
) -> bool {
    let key = sort_by_name(h);
    if serves(old, key, now) {
        r == old[key].0 && new == old
    } else {
        new == (if old.len() >= CACHE_SIZE_LIMIT { keep_fresh(old, now) } else { old }).insert(key, (r, now))
    }
}

/// Two builds of the same headers (in any order, no name twice), the first on a
/// cache with no fresh entry for them, the second less than `CACHE_TTL_SECS`
/// later: the second gives the first's bytes and leaves the cache as it was; on
/// an empty cache the first leaves one entry.
pub proof fn law_reordered_headers_share_entry(
    c0: Map<Seq<(Seq<char>, Seq<char>)>, (Seq<u8>, u64)>,
    h1: Seq<(Seq<char>, Seq<char>)>, t1: u64, r1: Seq<u8>,
    c1: Map<Seq<(Seq<char>, Seq<char>)>, (Seq<u8>, u64)>,
    h2: Seq<(Seq<char>, Seq<char>)>, t2: u64, r2: Seq<u8>,
    c2: Map<Seq<(Seq<char>, Seq<char>)>, (Seq<u8>, u64)>,
)
    requires
        build_outcome(c0, h1, t1, r1, c1),
        build_outcome(c1, h2, t2, r2, c2),
        h1.to_multiset() == h2.to_multiset(),
        names_distinct(h1),
        !serves(c0, sort_by_name(h1), t1),
        t1 <= t2 < t1 + CACHE_TTL_SECS,
    ensures
        r2 == r1,
        c2 == c1,
        c0 == no_entries() ==> c1.len() == 1,
{
    law_cache_key_order_independent(h1, h2);
    let key = sort_by_name(h1);
    assert(c1.contains_key(key) && c1[key] == (r1, t1));
    assert(serves(c1, key, t2));
    if c0 == no_entries() {
        assert(c1 =~= no_entries().insert(key, (r1, t1)));
    }
}

/// The encoding of `headers`: the cached one for the same headers (in any order)
/// while it is fresh at `now`; else what `encode` makes of them, which is then
/// cached under the headers sorted by name.
pub fn build_headers_flatbuffer<F: Fn(&Vec<(String, String)>) -> Vec<u8>>(
    cache: &mut HeadersCache,
    headers: &Vec<(String, String)>,
    now: u64,
    encode: F,
) -> (r: Vec<u8>)
    requires
        call_requires(encode, (headers,)),
    ensures
        build_outcome(old(cache)@, pairs_view(headers@), now, r@, final(cache)@),
        !serves(old(cache)@, sort_by_name(pairs_view(headers@)), now) ==> call_ensures(encode, (headers,), r),
{
    let key = headers_cache_key(headers);
    if let Some(data) = cache.get_fresh(&key, now) {
        return data;
    }
    let data = encode(headers);
    let copy = crate::store::tls::copy_bytes(&data);
    cache.put(key, copy, now);
    data
}

/// Empties the cache.
pub fn clear_cache(cache: &mut HeadersCache)
    ensures
        final(cache)@ == no_entries(),
{
    cache.clear();
}

/// The number of cached encodings, and how many fit before the cache grows.
pub fn cache_stats(cache: &HeadersCache) -> (r: (usize, usize))
    ensures
        r.0 == cache@.len(),
        r.1 >= r.0,
{
    (cache.len(), cache.capacity())
}

} // verus!
