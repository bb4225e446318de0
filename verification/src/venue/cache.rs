//! A memo of responses that can no longer change, held for the life of the process.

use vstd::hash_map::StringHashMap;
use vstd::prelude::*;

verus! {

/// The key of a cached response.
pub type CacheKey = String;

/// Responses by request key.
pub struct RestCache {
    entries: StringHashMap<Vec<u8>>,
}

impl View for RestCache {
    type V = Map<Seq<char>, Seq<u8>>;

    closed spec fn view(&self) -> Map<Seq<char>, Seq<u8>> {
        self.entries@.map_values(|bytes: Vec<u8>| bytes@)
    }
}

impl RestCache {
    /// A cache that holds nothing.
    pub fn new() -> (r: RestCache)
        ensures
            r@ == Map::<Seq<char>, Seq<u8>>::empty(),
    {
        let r = RestCache { entries: StringHashMap::new() };
        assert(r@ =~= Map::<Seq<char>, Seq<u8>>::empty());
        r
    }

    /// The bytes under `key`, if there are any.
    pub fn get(&self, key: &str) -> (r: Option<Vec<u8>>)
        ensures
            match r {
                Some(bytes) => self@.contains_key(key@) && bytes@ == self@[key@],
                None => !self@.contains_key(key@),
            },
    {
        match self.entries.get(key) {
            Some(bytes) => {
                let copy = bytes.clone();
                assert(copy@ =~= bytes@);
                Some(copy)
            },
            None => None,
        }
    }

    /// Puts `bytes` under `key`, in place of what stood there.
    pub fn put(&mut self, key: CacheKey, bytes: Vec<u8>)
        ensures
            final(self)@ == old(self)@.insert(key@, bytes@),
    {
        self.entries.insert(key, bytes);
        assert(self@ =~= old(self)@.insert(key@, bytes@));
    }

    /// How many responses are held.
    pub fn len(&self) -> (r: usize)
        ensures
            r == self@.len(),
    {
        proof {
            assert(self@.dom() =~= self.entries@.dom());
        }
        self.entries.len()
    }

    /// Whether nothing is held.
    pub fn is_empty(&self) -> (r: bool)
        ensures
            r == (self@ == Map::<Seq<char>, Seq<u8>>::empty()),
    {
        proof {
            assert(self@.dom() =~= self.entries@.dom());
            if self.entries@.is_empty() {
                assert(self@ =~= Map::<Seq<char>, Seq<u8>>::empty());
            }
        }
        self.entries.is_empty()
    }
}

impl Default for RestCache {
    fn default() -> (r: RestCache)
        ensures
            r@ == Map::<Seq<char>, Seq<u8>>::empty(),
    {
        RestCache::new()
    }
}

/// What was put last under a key is what is found there, and other keys are left alone.
pub proof fn law_cache_returns_the_last_put(
    cache: Map<Seq<char>, Seq<u8>>,
    key: Seq<char>,
    bytes: Seq<u8>,
    other: Seq<char>,
)
    ensures
        cache.insert(key, bytes).contains_key(key),
        cache.insert(key, bytes)[key] == bytes,
        other != key ==> (cache.insert(key, bytes).contains_key(other) <==> cache.contains_key(
            other,
        )),
        other != key ==> cache.insert(key, bytes)[other] == cache[other],
{
}

} // verus!
