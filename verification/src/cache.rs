//! The byte store behind the cache, modelled as a key-value map.
//!
//! The retriever persists encoded payloads under opaque string keys and
//! reads them back on later runs. This module gives that store a verified
//! in-memory form whose view is a `Map` from key to payload: a write is a
//! map insert, a read returns exactly the mapped payload. The on-disk
//! store the application uses offers the same operations; the round-trip
//! law ([`lemma_cache_round_trip`]) is proved here on the map view.

use vstd::prelude::*;

verus! {

/// The map carried by a sequence of key/payload pairs; a later pair for
/// the same key wins.
pub open spec fn kv_map(s: Seq<(String, Vec<u8>)>) -> Map<Seq<char>, Seq<u8>>
    decreases s.len(),
{
    if s.len() == 0 {
        Map::empty()
    } else {
        kv_map(s.drop_last()).insert(s.last().0@, s.last().1@)
    }
}

/// A key-value byte store: payloads under opaque string keys.
pub struct CacheStore {
    entries: Vec<(String, Vec<u8>)>,
}

/// Looking a key up among the pairs, newest first, is looking it up in
/// the map they carry.
proof fn lemma_kv_lookup_at(s: Seq<(String, Vec<u8>)>, key: Seq<char>, i: int)
    requires
        0 <= i < s.len(),
        s[i].0@ == key,
        forall|k: int| i < k < s.len() ==> (#[trigger] s[k]).0@ != key,
    ensures
        kv_map(s).contains_key(key),
        kv_map(s)[key] == s[i].1@,
    decreases s.len(),
{
    if i == s.len() - 1 {
    } else {
        let t = s.drop_last();
        assert(forall|k: int| i < k < t.len() ==> (#[trigger] t[k]).0@ == s[k].0@);
        lemma_kv_lookup_at(t, key, i);
    }
}

/// A key no pair carries is not in the map.
proof fn lemma_kv_absent(s: Seq<(String, Vec<u8>)>, key: Seq<char>)
    requires
        forall|k: int| 0 <= k < s.len() ==> (#[trigger] s[k]).0@ != key,
    ensures
        !kv_map(s).contains_key(key),
    decreases s.len(),
{
    if s.len() > 0 {
        let t = s.drop_last();
        assert(forall|k: int| 0 <= k < t.len() ==> (#[trigger] t[k]).0@ == s[k].0@);
        lemma_kv_absent(t, key);
    }
}

impl View for CacheStore {
    type V = Map<Seq<char>, Seq<u8>>;

    /// The store seen as a map from key to payload.
    closed spec fn view(&self) -> Map<Seq<char>, Seq<u8>> {
        kv_map(self.entries@)
    }
}

impl CacheStore {
    /// Create an empty store.
    pub fn new() -> (store: CacheStore)
        ensures
            store@ == Map::<Seq<char>, Seq<u8>>::empty(),
    {
        let store = CacheStore { entries: Vec::new() };
        proof {
            assert(store@ =~= Map::<Seq<char>, Seq<u8>>::empty());
        }
        store
    }

    /// Whether a payload is stored under `key`.
    pub fn has_entry(&self, key: &String) -> (r: bool)
        ensures
            r == self@.contains_key(key@),
    {
        match self.read_from_cache(key) {
            Option::Some(_) => true,
            Option::None => false,
        }
    }

    /// The payload stored under `key`, if any.
    pub fn read_from_cache(&self, key: &String) -> (r: Option<&Vec<u8>>)
        ensures
            match r {
                Option::Some(v) => self@.contains_key(key@) && v@ == self@[key@],
                Option::None => !self@.contains_key(key@),
            },
    {
        let n = self.entries.len();
        let mut i: usize = n;
        while i > 0
            invariant
                0 <= i <= n,
                n == self.entries.len(),
                forall|k: int| i <= k < n ==> (#[trigger] self.entries@[k]).0@ != key@,
            decreases i,
        {
            i = i - 1;
            if self.entries[i].0 == *key {
                proof {
                    lemma_kv_lookup_at(self.entries@, key@, i as int);
                }
                return Option::Some(&self.entries[i].1);
            }
        }
        proof {
            lemma_kv_absent(self.entries@, key@);
        }
        Option::None
    }

    /// Store `value` under `key`, replacing any earlier payload there.
    pub fn write_to_cache(&mut self, key: &String, value: Vec<u8>)
        ensures
            final(self)@ == old(self)@.insert(key@, value@),
    {
        let pair = (key.clone(), value);
        self.entries.push(pair);
        proof {
            assert(self.entries@.drop_last() =~= old(self).entries@);
        }
    }
}

/// Law (cache round trip): after a payload is written under a key, a read
/// of that key returns exactly that payload — over the store's map view,
/// as the contracts of `write_to_cache` and `read_from_cache` use it.
pub proof fn lemma_cache_round_trip(m: Map<Seq<char>, Seq<u8>>, key: Seq<char>, value: Seq<u8>)
    ensures
        m.insert(key, value).contains_key(key),
        m.insert(key, value)[key] == value,
{
}

} // verus!
