//! TTL-based cache for tool call results, persistent across sessions.
use std::collections::HashMap;
use vstd::prelude::*;
use crate::protocol::JsonRpcResponse;
use vstd::std_specs::iter::IteratorSpec;
use crate::json::{json_text, to_json_string, Json, JsonV};
use std::collections::hash_map::DefaultHasher;
use std::hash::Hasher;
use vstd::std_specs::hash::DefaultHasherAdditionalSpecFns;
use vstd::string::StringSliceAdditionalSpecFns;

verus! {

broadcast use vstd::std_specs::hash::group_hash_axioms;

/// The current Unix time in seconds (`SystemTime::now()` since the epoch, 0
/// if the clock is before it). Nothing is stated of the value: it is the
/// machine's clock.
#[verifier::external_body]
pub(crate) fn now_secs() -> u64 {
    std::time::SystemTime::now().duration_since(std::time::UNIX_EPOCH).unwrap_or_default().as_secs()
}

/// A cached response with its expiry time and token sizes.
#[derive(Debug)]
pub struct CacheEntry {
    pub response: JsonRpcResponse,
    /// Unix timestamp (seconds).
    pub expires_at: u64,
    pub tokens_original: usize,
    pub tokens_compressed: usize,
}

/// An entry is live at `now` while `now` is before its expiry time.
pub open spec fn is_live(e: CacheEntry, now: u64) -> bool {
    now < e.expires_at
}

/// What a lookup of `key` at time `now` finds.
pub open spec fn lookup(m: Map<u64, CacheEntry>, key: u64, now: u64) -> Option<CacheEntry> {
    if m.contains_key(key) && is_live(m[key], now) {
        Some(m[key])
    } else {
        None
    }
}

/// The expiry time of an entry stored at `now` with lifetime `ttl`.
pub open spec fn expiry(now: u64, ttl: u64) -> u64 {
    if now + ttl <= u64::MAX {
        (now + ttl) as u64
    } else {
        u64::MAX
    }
}

/// The entries of `m` still live at `now`.
pub open spec fn live_entries(m: Map<u64, CacheEntry>, now: u64) -> Map<u64, CacheEntry> {
    m.restrict(m.dom().filter(|k: u64| is_live(m[k], now)))
}

/// The keys of `m` live at `now`.
pub open spec fn live_keys(m: Map<u64, CacheEntry>, now: u64) -> Set<u64> {
    m.dom().filter(|k: u64| is_live(m[k], now))
}

/// The state of a cache.
pub struct CacheView {
    pub entries: Map<u64, CacheEntry>,
    pub ttl_secs: u64,
}

/// TTL-based cache for tool call results, persistent across sessions.
pub struct Cache {
    entries: HashMap<u64, CacheEntry>,
    ttl_secs: u64,
}

impl View for Cache {
    type V = CacheView;

    closed spec fn view(&self) -> CacheView {
        CacheView { entries: self.entries@, ttl_secs: self.ttl_secs }
    }
}

impl Cache {
    pub fn new(ttl_secs: u64) -> (c: Self)
        ensures
            c@.entries == Map::<u64, CacheEntry>::empty(),
            c@.ttl_secs == ttl_secs,
    {
        Cache { entries: HashMap::new(), ttl_secs }
    }

    /// A cache holding `entries`, with lifetime `ttl_secs` for new entries.
    pub fn from_parts(entries: HashMap<u64, CacheEntry>, ttl_secs: u64) -> (c: Self)
        ensures
            c@.entries == entries@,
            c@.ttl_secs == ttl_secs,
    {
        Cache { entries, ttl_secs }
    }

    /// All entries, live or not.
    pub fn entries(&self) -> (r: &HashMap<u64, CacheEntry>)
        ensures
            r@ == self@.entries,
    {
        &self.entries
    }

    pub fn ttl_secs(&self) -> (t: u64)
        ensures
            t == self@.ttl_secs,
    {
        self.ttl_secs
    }

    /// The response cached for `key`, if live at `now`.
    pub fn get_at(&self, key: u64, now: u64) -> (r: Option<&JsonRpcResponse>)
        ensures
            match lookup(self@.entries, key, now) {
                Some(e) => r == Some(&e.response),
                None => r is None,
            },
    {
        match self.entries.get(&key) {
            Some(e) => if now < e.expires_at {
                Some(&e.response)
            } else {
                None
            },
            None => None,
        }
    }

    /// Look up a cached response. Returns `None` if missing or expired.
    pub fn get(&self, key: u64) -> (r: Option<&JsonRpcResponse>)
        ensures
            exists|now: u64|
                match #[trigger] lookup(self@.entries, key, now) {
                    Some(e) => r == Some(&e.response),
                    None => r is None,
                },
    {
        self.get_at(key, now_secs())
    }

    /// The token sizes stored with the entry for `key`, if live at `now`.
    pub fn get_tokens_at(&self, key: u64, now: u64) -> (r: Option<(usize, usize)>)
        ensures
            r == match lookup(self@.entries, key, now) {
                Some(e) => Some((e.tokens_original, e.tokens_compressed)),
                None => None,
            },
    {
        match self.entries.get(&key) {
            Some(e) => if now < e.expires_at {
                Some((e.tokens_original, e.tokens_compressed))
            } else {
                None
            },
            None => None,
        }
    }

    /// Return the token sizes stored with a cache entry.
    pub fn get_tokens(&self, key: u64) -> (r: Option<(usize, usize)>)
        ensures
            exists|now: u64|
                r == match #[trigger] lookup(self@.entries, key, now) {
                    Some(e) => Some((e.tokens_original, e.tokens_compressed)),
                    None => None,
                },
    {
        self.get_tokens_at(key, now_secs())
    }

    /// Insert a response stored at time `now`; it expires `ttl_secs` later
    /// (at the latest representable time if that overflows).
    pub fn insert_at(
        &mut self,
        key: u64,
        response: JsonRpcResponse,
        tokens_original: usize,
        tokens_compressed: usize,
        now: u64,
    )
        ensures
            final(self)@.ttl_secs == old(self)@.ttl_secs,
            final(self)@.entries == old(self)@.entries.insert(
                key,
                CacheEntry {
                    response,
                    expires_at: expiry(now, old(self)@.ttl_secs),
                    tokens_original,
                    tokens_compressed,
                },
            ),
    {
        let expires_at = now.saturating_add(self.ttl_secs);
        self.entries.insert(key, CacheEntry { response, expires_at, tokens_original, tokens_compressed });
    }

    /// Insert a response into the cache with its pre/post-compression token
    /// sizes; it expires `ttl_secs` after the current time.
    pub fn insert(
        &mut self,
        key: u64,
        response: JsonRpcResponse,
        tokens_original: usize,
        tokens_compressed: usize,
    )
        ensures
            final(self)@.ttl_secs == old(self)@.ttl_secs,
            exists|now: u64|
                final(self)@.entries == old(self)@.entries.insert(
                    key,
                    CacheEntry {
                        response,
                        expires_at: expiry(now, old(self)@.ttl_secs),
                        tokens_original,
                        tokens_compressed,
                    },
                ),
    {
        let now = now_secs();
        self.insert_at(key, response, tokens_original, tokens_compressed, now);
    }

    /// Remove all entries expired at `now`.
    pub fn evict_expired_at(&mut self, now: u64)
        ensures
            final(self)@.ttl_secs == old(self)@.ttl_secs,
            final(self)@.entries == live_entries(old(self)@.entries, now),
    {
        let keys = self.key_list();
        let ghost all_keys = keys@;
        let ghost m0 = self.entries@;
        let mut i: usize = 0;
        while i < keys.len()
            invariant
                i <= keys.len(),
                keys@ == all_keys,
                self@.ttl_secs == old(self)@.ttl_secs,
                all_keys.to_set() == m0.dom(),
                self.entries@ == m0.restrict(
                    m0.dom().filter(|k: u64| !all_keys.take(i as int).contains(k) || is_live(m0[k], now)),
                ),
            decreases keys.len() - i,
        {
            let k = keys[i];
            let ghost before = self.entries@;
            let expired = match self.entries.get(&k) {
                Some(e) => now >= e.expires_at,
                None => false,
            };
            if expired {
                self.entries.remove(&k);
            }
            proof {
                let next = m0.restrict(
                    m0.dom().filter(|k2: u64| !all_keys.take(i + 1).contains(k2) || is_live(m0[k2], now)),
                );
                assert(all_keys.take(i + 1) =~= all_keys.take(i as int).push(k));
                assert forall|k2: u64| #[trigger] self.entries@.contains_key(k2) == next.contains_key(k2) by {
                    if k2 == k {
                        assert(all_keys.take(i + 1)[i as int] == k);
                        assert(all_keys.take(i + 1).contains(k));
                    } else {
                        if all_keys.take(i + 1).contains(k2) {
                            let j = choose|j: int| 0 <= j < i + 1 && #[trigger] all_keys.take(i + 1)[j] == k2;
                            assert(j < i);
                            assert(all_keys.take(i as int)[j] == k2);
                        }
                        if all_keys.take(i as int).contains(k2) {
                            let j = choose|j: int| 0 <= j < i && #[trigger] all_keys.take(i as int)[j] == k2;
                            assert(all_keys.take(i + 1)[j] == k2);
                        }
                    }
                }
                assert(self.entries@ =~= next);
            }
            i = i + 1;
        }
        proof {
            assert(all_keys.take(keys.len() as int) =~= all_keys);
            assert forall|k2: u64| m0.contains_key(k2) implies all_keys.contains(k2) by {
                assert(all_keys.to_set().contains(k2));
            }
            assert(self.entries@ =~= live_entries(m0, now));
        }
    }

    /// Remove all expired entries.
    pub fn evict_expired(&mut self)
        ensures
            final(self)@.ttl_secs == old(self)@.ttl_secs,
            exists|now: u64| final(self)@.entries == live_entries(old(self)@.entries, now),
    {
        self.evict_expired_at(now_secs());
    }

    /// The keys of the cache, each once.
    fn key_list(&self) -> (keys: Vec<u64>)
        ensures
            keys@.to_set() == self@.entries.dom(),
            keys@.no_duplicates(),
    {
        let mut keys: Vec<u64> = Vec::new();
        for k in it: self.entries.keys()
            invariant
                keys@ == it.seq().take(it.index() as int).map_values(|r: &u64| *r),
        {
            keys.push(*k);
        }
        proof {
            let ks = vstd::std_specs::hash::spec_keys_iter(&self.entries).remaining();
            assert(keys@ =~= ks.map_values(|r: &u64| *r));
            assert(ks.unref() =~= ks.map_values(|r: &u64| *r));
            assert forall|a: int, b: int| 0 <= a < keys@.len() && 0 <= b < keys@.len() && a != b implies keys@[a] != keys@[b] by {
                assert(ks[a] != ks[b]);
            }
        }
        keys
    }

    /// Number of entries live at `now`.
    pub fn len_at(&self, now: u64) -> (n: usize)
        ensures
            n == live_keys(self@.entries, now).len(),
    {
        let keys = self.key_list();
        let mut count: usize = 0;
        let mut i: usize = 0;
        while i < keys.len()
            invariant
                i <= keys.len(),
                count <= i,
                count == count_live(keys@.take(i as int), self@.entries, now),
            decreases keys.len() - i,
        {
            assert(keys@.take(i + 1).drop_last() =~= keys@.take(i as int));
            match self.entries.get(&keys[i]) {
                Some(e) => {
                    if now < e.expires_at {
                        count = count + 1;
                    }
                },
                None => {
                    assert(keys@.to_set().contains(keys@[i as int]));
                },
            }
            i = i + 1;
        }
        proof {
            assert(keys@.take(keys.len() as int) =~= keys@);
            lemma_count_live(keys@, self@.entries, now);
            assert(keys@.to_set().filter(|k: u64| is_live(self@.entries[k], now)) =~= live_keys(self@.entries, now));
        }
        count
    }

    /// Number of live (non-expired) entries.
    pub fn len(&self) -> (n: usize)
        ensures
            exists|now: u64| n == live_keys(self@.entries, now).len(),
    {
        self.len_at(now_secs())
    }

    /// Whether no entry is live at `now`.
    pub fn is_empty_at(&self, now: u64) -> (b: bool)
        ensures
            b == (live_keys(self@.entries, now).len() == 0),
    {
        self.len_at(now) == 0
    }

    pub fn is_empty(&self) -> (b: bool)
        ensures
            exists|now: u64| b == (live_keys(self@.entries, now).len() == 0),
    {
        self.is_empty_at(now_secs())
    }
}

/// How many of the keys `ks` hold entries of `m` live at `now`.
pub open spec fn count_live(ks: Seq<u64>, m: Map<u64, CacheEntry>, now: u64) -> nat
    decreases ks.len(),
{
    if ks.len() == 0 {
        0
    } else {
        count_live(ks.drop_last(), m, now) + if m.contains_key(ks.last()) && is_live(m[ks.last()], now) {
            1nat
        } else {
            0nat
        }
    }
}

proof fn lemma_count_live(ks: Seq<u64>, m: Map<u64, CacheEntry>, now: u64)
    requires
        ks.no_duplicates(),
        ks.to_set() <= m.dom(),
    ensures
        count_live(ks, m, now) == ks.to_set().filter(|k: u64| is_live(m[k], now)).len(),
        ks.to_set().filter(|k: u64| is_live(m[k], now)).finite(),
    decreases ks.len(),
{
    let f = |k: u64| is_live(m[k], now);
    if ks.len() == 0 {
        assert(ks.to_set() =~= Set::<u64>::empty());
        assert(ks.to_set().filter(f) =~= Set::<u64>::empty());
    } else {
        let p = ks.drop_last();
        let k = ks.last();
        assert(p.no_duplicates()) by {
            assert forall|a: int, b: int| 0 <= a < p.len() && 0 <= b < p.len() && a != b implies p[a] != p[b] by {
                assert(p[a] == ks[a] && p[b] == ks[b]);
            }
        }
        assert(ks =~= p.push(k));
        assert(ks.to_set() =~= p.to_set().insert(k)) by {
            assert forall|x: u64| ks.to_set().contains(x) <==> p.to_set().insert(k).contains(x) by {
                if ks.contains(x) {
                    let j = choose|j: int| 0 <= j < ks.len() && ks[j] == x;
                    if j < p.len() {
                        assert(p[j] == x);
                    }
                }
                if p.contains(x) {
                    let j = choose|j: int| 0 <= j < p.len() && p[j] == x;
                    assert(ks[j] == x);
                }
                if x == k {
                    assert(ks[ks.len() - 1] == k);
                }
            }
        }
        assert(p.to_set() <= m.dom());
        lemma_count_live(p, m, now);
        assert(!p.to_set().contains(k)) by {
            if p.contains(k) {
                let j = choose|j: int| 0 <= j < p.len() && p[j] == k;
                assert(ks[j] == ks[ks.len() - 1]);
            }
        }
        assert(ks.to_set().contains(k));
        if is_live(m[k], now) {
            assert(ks.to_set().filter(f) =~= p.to_set().filter(f).insert(k));
        } else {
            assert(ks.to_set().filter(f) =~= p.to_set().filter(f));
        }
    }
}

/// A lookup after storing a response finds that response until it expires
/// and nothing afterwards, and leaves the lookups of every other key as they
/// were.
pub proof fn law_cache_read_after_write(
    m: Map<u64, CacheEntry>,
    key: u64,
    entry: CacheEntry,
    other: u64,
    t: u64,
)
    requires
        other != key,
    ensures
        lookup(m.insert(key, entry), key, t) == if t < entry.expires_at {
            Some(entry)
        } else {
            None
        },
        lookup(m.insert(key, entry), other, t) == lookup(m, other, t),
{
}

/// An entry stored at `now` lives for exactly the cache's lifetime (unless
/// that runs past the last representable second).
pub proof fn law_cache_entry_lifetime(now: u64, ttl: u64)
    ensures
        now + ttl <= u64::MAX ==> expiry(now, ttl) == now + ttl,
        expiry(now, ttl) >= now,
{
}

/// Evicting the entries expired at `now` changes no lookup made at `now` or
/// later.
pub proof fn law_evict_keeps_lookups(m: Map<u64, CacheEntry>, now: u64, key: u64, t: u64)
    requires
        t >= now,
    ensures
        lookup(live_entries(m, now), key, t) == lookup(m, key, t),
{
}


/// At one instant the cache counts exactly the keys a lookup finds, and it
/// is empty exactly when that count is zero.
pub proof fn law_len_counts_lookups(m: Map<u64, CacheEntry>, now: u64)
    requires
        m.dom().finite(),
    ensures
        live_keys(m, now) == Set::new(|k: u64| lookup(m, k, now) is Some),
        (live_keys(m, now).len() == 0) == (live_keys(m, now) == Set::<u64>::empty()),
{
    assert(live_keys(m, now) =~= Set::new(|k: u64| lookup(m, k, now) is Some));
    let s = live_keys(m, now);
    assert(s.finite()) by {
        vstd::set_lib::lemma_set_subset_finite(m.dom(), s);
    }
    if s.len() == 0 {
        s.lemma_len0_is_empty();
    }
}

// ── Cache keys ─────────────────────────────────────────────────────────────

/// The byte strings hashed for a cache key: the tool name and the compact
/// JSON text of the arguments, each followed by `0xff` (as `str`'s `Hash`
/// writes a string).
pub open spec fn cache_key_writes(tool_name: Seq<char>, args: JsonV) -> Seq<Seq<u8>> {
    seq![
        vstd::utf8::encode_utf8(tool_name),
        seq![0xffu8],
        vstd::utf8::encode_utf8(json_text(args)),
        seq![0xffu8],
    ]
}

/// Compute a stable cache key from the tool name and its JSON arguments.
pub fn make_cache_key(tool_name: &str, args: &Json) -> (k: u64)
    ensures
        k == DefaultHasher::spec_finish(cache_key_writes(tool_name@, args@)),
{
    let marker: [u8; 1] = [0xff];
    let mut hasher = DefaultHasher::new();
    hasher.write(tool_name.as_bytes());
    hasher.write(&marker);
    let text = to_json_string(args);
    hasher.write(text.as_str().as_bytes());
    hasher.write(&marker);
    assert(marker@ =~= seq![0xffu8]);
    assert(hasher@ =~= cache_key_writes(tool_name@, args@));
    hasher.finish()
}

} // verus!
