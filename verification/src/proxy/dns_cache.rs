//! A cache of resolved addresses.

use crate::clock::MAX_NANOS;
use vstd::hash_map::StringHashMap;
use vstd::prelude::*;

verus! {

/// How long a resolved address is kept after it was last used.
pub const DNS_CACHE_TTL_NANOS: u128 = 30_000_000_000;

/// A resolved address, and when it is to be resolved anew.
#[derive(Debug, Clone)]
pub struct DnsCacheEntry {
    pub ip: String,
    pub expires_at: u128,
}

/// The resolved addresses, each with the time when it expires.
pub type CacheView = Map<Seq<char>, (Seq<char>, u128)>;

/// The resolved addresses.
pub struct DnsCache {
    pub(crate) entries: StringHashMap<DnsCacheEntry>,
}

impl View for DnsCache {
    type V = Map<Seq<char>, (Seq<char>, u128)>;

    open(crate) spec fn view(&self) -> Map<Seq<char>, (Seq<char>, u128)> {
        self.entries@.map_values(|entry: DnsCacheEntry| (entry.ip@, entry.expires_at))
    }
}

/// The cache after an address was resolved.
pub open spec fn stored(cache: CacheView, address: Seq<char>, ip: Seq<char>, now: u128) -> CacheView {
    cache.insert(address, (ip, (now + DNS_CACHE_TTL_NANOS) as u128))
}

/// An address is looked up: what becomes of the cache, and the address that was
/// found. What is found is kept for another full span; an empty text is not
/// taken for an address.
pub open spec fn looked_up(cache: CacheView, address: Seq<char>, now: u128) -> (
    CacheView,
    Option<Seq<char>>,
) {
    if cache.contains_key(address) && cache[address].1 > now {
        let ip = cache[address].0;
        (
            stored(cache, address, ip, now),
            if ip.len() > 0 {
                Some(ip)
            } else {
                None
            },
        )
    } else {
        (cache, None)
    }
}

impl DnsCache {
    /// An empty cache.
    pub fn new() -> (cache: DnsCache)
        ensures
            cache@ == Map::<Seq<char>, (Seq<char>, u128)>::empty(),
    {
        let cache = DnsCache { entries: StringHashMap::new() };
        assert(cache@ =~= Map::<Seq<char>, (Seq<char>, u128)>::empty());
        cache
    }

    /// Keeps a resolved address from the time `now` on.
    pub fn store_at(&mut self, address: &str, ip: &str, now: u128)
        requires
            now <= MAX_NANOS,
        ensures
            final(self)@ == stored(old(self)@, address@, ip@, now),
    {
        let ghost before = self@;
        let entry = DnsCacheEntry { ip: ip.to_owned(), expires_at: now + DNS_CACHE_TTL_NANOS };
        self.entries.insert(address.to_owned(), entry);
        assert(self@ =~= stored(before, address@, ip@, now));
    }

    /// Looks an address up at the time `now`.
    pub fn lookup_at(&mut self, address: &str, now: u128) -> (ip: Option<String>)
        requires
            now <= MAX_NANOS,
        ensures
            match ip {
                Some(ip) => looked_up(old(self)@, address@, now) == (final(self)@, Some(ip@)),
                None => looked_up(old(self)@, address@, now) == (
                    final(self)@,
                    None::<Seq<char>>,
                ),
            },
    {
        let ip = match self.entries.get(address) {
            Some(entry) => if entry.expires_at > now {
                entry.ip.clone()
            } else {
                return None;
            },
            None => {
                return None;
            },
        };
        self.store_at(address, ip.as_str(), now);
        if ip.as_str().is_empty() {
            None
        } else {
            Some(ip)
        }
    }
}

/// A resolved address is found until its span is over, and no longer; a find
/// begins the span anew; and no other address is touched.
pub proof fn law_cache_keeps_addresses(
    cache: CacheView,
    address: Seq<char>,
    ip: Seq<char>,
    now: u128,
    later: u128,
    other: Seq<char>,
)
    requires
        ip.len() > 0,
        now <= later <= MAX_NANOS,
    ensures
        ({
            let kept = stored(cache, address, ip, now);
            let (after, found) = looked_up(kept, address, later);
            &&& later < now + DNS_CACHE_TTL_NANOS ==> found == Some(ip) && after == stored(
                kept,
                address,
                ip,
                later,
            ) && after[address] == (ip, (later + DNS_CACHE_TTL_NANOS) as u128)
            &&& later >= now + DNS_CACHE_TTL_NANOS ==> found is None && after == kept
            &&& other != address && cache.contains_key(other) ==> after.contains_key(other)
                && after[other] == cache[other]
            &&& other != address && !cache.contains_key(other) ==> !after.contains_key(other)
        }),
{
}

/// An address that was resolved is kept for thirty seconds; a look-up finds it if its
/// time is not over and it is not empty, and then keeps it for thirty seconds more; and
/// neither touches any other address.
pub proof fn law_addresses_live_for_thirty_seconds(
    cache: CacheView,
    address: Seq<char>,
    ip: Seq<char>,
    now: u128,
)
    requires
        now <= MAX_NANOS,
    ensures
        stored(cache, address, ip, now) == cache.insert(
            address,
            (ip, (now + 30_000_000_000) as u128),
        ),
        ({
            let (after, found) = looked_up(cache, address, now);
            let alive = cache.contains_key(address) && now < cache[address].1;
            &&& found == if alive && cache[address].0.len() > 0 {
                Some(cache[address].0)
            } else {
                None
            }
            &&& alive ==> after == cache.insert(
                address,
                (cache[address].0, (now + 30_000_000_000) as u128),
            )
            &&& !alive ==> after == cache
        }),
{
}

} // verus!
