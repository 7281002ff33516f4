//! A size-bounded map from adapter name to timestamped configuration,
//! with lazy TTL expiry and a stale-read path.
//!
//! Time is a reading of a monotonic clock in nanoseconds (see `Clock`).

use vstd::prelude::*;
use vstd::set_lib::lemma_len_subset;

use crate::clock::Clock;
use crate::network::IPConfiguration;

verus! {

/// Default time-to-live of an entry, in seconds.
pub const DEFAULT_TTL_SECS: u64 = 30;

/// Largest number of entries the cache holds after any insertion.
pub const MAX_CACHE_ENTRIES: usize = 50;

/// Nanoseconds in one second.
pub const NANOS_PER_SEC: u64 = 1_000_000_000;

/// A cached value with the clock reading at which it was created and its
/// time-to-live.
#[derive(Debug)]
pub struct CacheEntry<T> {
    pub data: T,
    /// Clock reading (nanoseconds) at creation.
    pub created_at: u64,
    /// Time-to-live in whole seconds.
    pub ttl_secs: u64,
}

impl<T> CacheEntry<T> {
    /// Nanoseconds elapsed between creation and `now`; zero when `now` lies
    /// before the creation reading.
    pub open spec fn elapsed_at(&self, now: u64) -> nat {
        if now >= self.created_at {
            (now - self.created_at) as nat
        } else {
            0
        }
    }

    /// The time-to-live in nanoseconds.
    pub open spec fn ttl_nanos(&self) -> nat {
        self.ttl_secs as nat * NANOS_PER_SEC as nat
    }

    /// An entry is expired once strictly more than its TTL has elapsed.
    pub open spec fn expired_at(&self, now: u64) -> bool {
        self.elapsed_at(now) > self.ttl_nanos()
    }

    /// Whole seconds of life left at `now`; zero once expired.
    pub open spec fn remaining_secs_at(&self, now: u64) -> nat {
        if self.expired_at(now) {
            0
        } else {
            ((self.ttl_nanos() - self.elapsed_at(now)) as nat) / (NANOS_PER_SEC as nat)
        }
    }

    /// Creates an entry at clock reading `now` with the default TTL.
    pub fn new(data: T, now: u64) -> (r: Self)
        ensures
            r.data == data,
            r.created_at == now,
            r.ttl_secs == DEFAULT_TTL_SECS,
    {
        CacheEntry { data, created_at: now, ttl_secs: DEFAULT_TTL_SECS }
    }

    /// Creates an entry at clock reading `now` with a TTL of `ttl_secs`.
    pub fn with_ttl(data: T, ttl_secs: u64, now: u64) -> (r: Self)
        ensures
            r.data == data,
            r.created_at == now,
            r.ttl_secs == ttl_secs,
    {
        CacheEntry { data, created_at: now, ttl_secs }
    }

    fn elapsed_nanos(&self, now: u64) -> (r: u64)
        ensures
            r == self.elapsed_at(now),
    {
        if now >= self.created_at {
            now - self.created_at
        } else {
            0
        }
    }

    /// Whether the entry is expired at clock reading `now`.
    pub fn is_expired(&self, now: u64) -> (r: bool)
        ensures
            r == self.expired_at(now),
    {
        let elapsed = self.elapsed_nanos(now) as u128;
        let ttl = self.ttl_secs as u128 * NANOS_PER_SEC as u128;
        elapsed > ttl
    }

    /// Whole seconds of life left at clock reading `now`; zero once expired.
    pub fn remaining_ttl_secs(&self, now: u64) -> (r: u64)
        ensures
            r == self.remaining_secs_at(now),
    {
        let elapsed = self.elapsed_nanos(now) as u128;
        let ttl = self.ttl_secs as u128 * NANOS_PER_SEC as u128;
        if elapsed > ttl {
            0
        } else {
            let left = (ttl - elapsed) / NANOS_PER_SEC as u128;
            assert(left <= self.ttl_secs) by (nonlinear_arith)
                requires
                    left == (ttl - elapsed) / 1_000_000_000,
                    ttl == self.ttl_secs * 1_000_000_000,
                    elapsed >= 0,
                    ttl >= elapsed,
            ;
            left as u64
        }
    }
}

/// Entries whose TTL has not run out at `now`.
pub open spec fn unexpired<T>(m: Map<Seq<char>, CacheEntry<T>>, now: u64) -> Map<
    Seq<char>,
    CacheEntry<T>,
> {
    Map::new(|k: Seq<char>| m.contains_key(k) && !m[k].expired_at(now), |k: Seq<char>| m[k])
}

/// `after` is what eviction leaves of `before` at `now`: every expired entry
/// goes; if that leaves the cache at or above capacity, the oldest entries
/// (by creation reading) go too, until one slot under capacity is left.
pub open spec fn is_eviction<T>(
    before: Map<Seq<char>, CacheEntry<T>>,
    after: Map<Seq<char>, CacheEntry<T>>,
    now: u64,
) -> bool {
    let fresh = unexpired(before, now);
    if fresh.len() < MAX_CACHE_ENTRIES {
        after == fresh
    } else {
        &&& after.submap_of(fresh)
        &&& after.len() == MAX_CACHE_ENTRIES - 1
        &&& forall|a: Seq<char>, b: Seq<char>|
            fresh.contains_key(a) && !after.contains_key(a) && after.contains_key(b)
                ==> #[trigger] fresh[a].created_at <= #[trigger] fresh[b].created_at
    }
}

/// Key/entry pairs with distinct keys, together with the map they stand for.
struct SlotTable {
    slots: Vec<(String, CacheEntry<IPConfiguration>)>,
    contents: Ghost<Map<Seq<char>, CacheEntry<IPConfiguration>>>,
}

impl SlotTable {
    spec fn wf(&self) -> bool {
        &&& self.contents@.dom().finite()
        &&& self.contents@.len() == self.slots@.len()
        &&& forall|i: int|
            #![trigger self.slots@[i]]
            0 <= i < self.slots@.len() ==> self.contents@.contains_key(self.slots@[i].0@)
                && self.contents@[self.slots@[i].0@] == self.slots@[i].1
        &&& forall|k: Seq<char>|
            #[trigger] self.contents@.contains_key(k) ==> exists|i: int|
                0 <= i < self.slots@.len() && self.slots@[i].0@ == k
        &&& forall|i: int, j: int|
            0 <= i < self.slots@.len() && 0 <= j < self.slots@.len() && i != j
                ==> #[trigger] self.slots@[i].0@ != #[trigger] self.slots@[j].0@
    }

    fn empty() -> (r: Self)
        ensures
            r.wf(),
            r.contents@ == Map::<Seq<char>, CacheEntry<IPConfiguration>>::empty(),
    {
        SlotTable { slots: Vec::new(), contents: Ghost(Map::empty()) }
    }

    fn position(&self, key: &String) -> (r: Option<usize>)
        requires
            self.wf(),
        ensures
            match r {
                Some(i) => i < self.slots@.len() && self.slots@[i as int].0@ == key@,
                None => !self.contents@.contains_key(key@),
            },
    {
        let mut i: usize = 0;
        while i < self.slots.len()
            invariant
                self.wf(),
                i <= self.slots@.len(),
                forall|j: int| 0 <= j < i ==> self.slots@[j].0@ != key@,
            decreases self.slots@.len() - i,
        {
            if self.slots[i].0 == *key {
                return Some(i);
            }
            i = i + 1;
        }
        None
    }

    fn put(&mut self, key: String, entry: CacheEntry<IPConfiguration>)
        requires
            old(self).wf(),
        ensures
            final(self).wf(),
            final(self).contents@ == old(self).contents@.insert(key@, entry),
    {
        let ghost k = key@;
        let ghost old_slots = self.slots@;
        match self.position(&key) {
            Some(i) => {
                self.slots.set(i, (key, entry));
                self.contents = Ghost(self.contents@.insert(k, entry));
                assert(self.contents@.dom() =~= old(self).contents@.dom());
                assert forall|k2: Seq<char>| #[trigger] self.contents@.contains_key(k2) implies exists|j: int|
                    0 <= j < self.slots@.len() && self.slots@[j].0@ == k2 by {
                    if k2 == k {
                        assert(self.slots@[i as int].0@ == k2);
                    } else {
                        let j = choose|j: int| 0 <= j < old_slots.len() && old_slots[j].0@ == k2;
                        assert(self.slots@[j].0@ == k2);
                    }
                }
            },
            None => {
                self.slots.push((key, entry));
                self.contents = Ghost(self.contents@.insert(k, entry));
                assert forall|k2: Seq<char>| #[trigger] self.contents@.contains_key(k2) implies exists|j: int|
                    0 <= j < self.slots@.len() && self.slots@[j].0@ == k2 by {
                    if k2 == k {
                        assert(self.slots@[old_slots.len() as int].0@ == k2);
                    } else {
                        let j = choose|j: int| 0 <= j < old_slots.len() && old_slots[j].0@ == k2;
                        assert(self.slots@[j].0@ == k2);
                    }
                }
            },
        }
    }

    fn remove_at(&mut self, i: usize)
        requires
            old(self).wf(),
            i < old(self).slots@.len(),
        ensures
            final(self).wf(),
            final(self).slots@ == old(self).slots@.remove(i as int),
            final(self).contents@ == old(self).contents@.remove(old(self).slots@[i as int].0@),
    {
        let ghost old_slots = self.slots@;
        let ghost key = self.slots@[i as int].0@;
        self.slots.remove(i);
        self.contents = Ghost(self.contents@.remove(key));
        assert forall|k2: Seq<char>| #[trigger] self.contents@.contains_key(k2) implies exists|j: int|
            0 <= j < self.slots@.len() && self.slots@[j].0@ == k2 by {
            let j = choose|j: int| 0 <= j < old_slots.len() && old_slots[j].0@ == k2;
            if j < i {
                assert(self.slots@[j].0@ == k2);
            } else {
                assert(self.slots@[j - 1].0@ == k2);
            }
        }
        assert forall|a: int, b: int|
            0 <= a < self.slots@.len() && 0 <= b < self.slots@.len() && a != b
                implies #[trigger] self.slots@[a].0@ != #[trigger] self.slots@[b].0@ by {
            let oa = if a < i { a } else { a + 1 };
            let ob = if b < i { b } else { b + 1 };
            assert(self.slots@[a] == old_slots[oa]);
            assert(self.slots@[b] == old_slots[ob]);
        }
        assert forall|a: int| 0 <= a < self.slots@.len() implies
            #[trigger] self.slots@[a].0@ != key by {
            let oa = if a < i { a } else { a + 1 };
            assert(self.slots@[a] == old_slots[oa]);
        }
    }

    fn remove(&mut self, key: &String)
        requires
            old(self).wf(),
        ensures
            final(self).wf(),
            final(self).contents@ == old(self).contents@.remove(key@),
    {
        match self.position(key) {
            Some(i) => {
                self.remove_at(i);
            },
            None => {
                assert(self.contents@.remove(key@) =~= self.contents@);
            },
        }
    }

    /// Drops every entry that is expired at `now`.
    fn retain_unexpired(&mut self, now: u64)
        requires
            old(self).wf(),
        ensures
            final(self).wf(),
            final(self).contents@ == unexpired(old(self).contents@, now),
    {
        let ghost before = self.contents@;
        let mut i: usize = 0;
        while i < self.slots.len()
            invariant
                self.wf(),
                i <= self.slots@.len(),
                self.contents@.submap_of(before),
                forall|k: Seq<char>|
                    before.contains_key(k) && !before[k].expired_at(now)
                        ==> #[trigger] self.contents@.contains_key(k),
                forall|j: int| 0 <= j < i ==> !(#[trigger] self.slots@[j]).1.expired_at(now),
            decreases self.slots@.len() - i,
        {
            if self.slots[i].1.is_expired(now) {
                let ghost old_slots = self.slots@;
                self.remove_at(i);
                assert forall|j: int| 0 <= j < i implies !(#[trigger] self.slots@[j]).1.expired_at(now) by {
                    assert(self.slots@[j] == old_slots[j]);
                }
            } else {
                i = i + 1;
            }
        }
        assert forall|k: Seq<char>| #[trigger] self.contents@.contains_key(k) implies !before[k].expired_at(now) by {
            let j = choose|j: int| 0 <= j < self.slots@.len() && self.slots@[j].0@ == k;
            assert(self.contents@[k] == self.slots@[j].1);
            assert(before.dom().contains(k));
            assert(self.contents@[k] == before[k]);
            assert(self.slots@[j].1.expired_at(now) == false);
        }
        assert(self.contents@ =~= unexpired(before, now));
    }

    /// Drops one entry with the smallest creation reading.
    fn remove_oldest(&mut self) -> (ghost_key: Ghost<Seq<char>>)
        requires
            old(self).wf(),
            old(self).slots@.len() > 0,
        ensures
            final(self).wf(),
            old(self).contents@.contains_key(ghost_key@),
            final(self).contents@ == old(self).contents@.remove(ghost_key@),
            forall|k: Seq<char>|
                #[trigger] old(self).contents@.contains_key(k)
                    ==> old(self).contents@[ghost_key@].created_at <= old(self).contents@[k].created_at,
    {
        let mut oldest: usize = 0;
        let mut i: usize = 1;
        while i < self.slots.len()
            invariant
                self.wf(),
                1 <= i <= self.slots@.len(),
                oldest < i,
                forall|j: int|
                    0 <= j < i ==> self.slots@[oldest as int].1.created_at
                        <= (#[trigger] self.slots@[j]).1.created_at,
            decreases self.slots@.len() - i,
        {
            if self.slots[i].1.created_at < self.slots[oldest].1.created_at {
                oldest = i;
            }
            i = i + 1;
        }
        let ghost key = self.slots@[oldest as int].0@;
        let ghost before = self.contents@;
        assert forall|k: Seq<char>| #[trigger] before.contains_key(k) implies
            before[key].created_at <= before[k].created_at by {
            let j = choose|j: int| 0 <= j < self.slots@.len() && self.slots@[j].0@ == k;
            assert(self.slots@[j].1.created_at >= self.slots@[oldest as int].1.created_at);
        }
        self.remove_at(oldest);
        Ghost(key)
    }

    /// Applies the eviction policy at `now`.
    fn evict(&mut self, now: u64)
        requires
            old(self).wf(),
        ensures
            final(self).wf(),
            is_eviction(old(self).contents@, final(self).contents@, now),
    {
        self.retain_unexpired(now);
        let ghost fresh = self.contents@;
        while self.slots.len() >= MAX_CACHE_ENTRIES
            invariant
                self.wf(),
                self.contents@.submap_of(fresh),
                fresh.len() < MAX_CACHE_ENTRIES ==> self.contents@ == fresh,
                fresh.len() >= MAX_CACHE_ENTRIES ==> self.slots@.len() >= MAX_CACHE_ENTRIES - 1,
                forall|a: Seq<char>, b: Seq<char>|
                    fresh.contains_key(a) && !self.contents@.contains_key(a)
                        && self.contents@.contains_key(b)
                        ==> #[trigger] fresh[a].created_at <= #[trigger] fresh[b].created_at,
            decreases self.slots@.len(),
        {
            let ghost cur = self.contents@;
            let Ghost(gone) = self.remove_oldest();
            assert forall|a: Seq<char>, b: Seq<char>|
                fresh.contains_key(a) && !self.contents@.contains_key(a)
                    && self.contents@.contains_key(b)
                    implies #[trigger] fresh[a].created_at <= #[trigger] fresh[b].created_at by {
                if a == gone {
                    assert(cur.contains_key(b));
                    assert(fresh.dom().contains(a) && fresh.dom().contains(b));
                    assert(cur[a] == fresh[a]);
                    assert(cur[b] == fresh[b]);
                    assert(cur[a].created_at <= cur[b].created_at);
                } else {
                    assert(!cur.contains_key(a));
                    assert(cur.contains_key(b));
                }
            }
        }
    }
}

/// The value a fresh read of `key` returns at `now`: present and unexpired.
pub open spec fn fresh_lookup(
    m: Map<Seq<char>, CacheEntry<IPConfiguration>>,
    key: Seq<char>,
    now: u64,
) -> Option<IPConfiguration> {
    if m.contains_key(key) && !m[key].expired_at(now) {
        Some(m[key].data)
    } else {
        None
    }
}

/// The value a stale read of `key` returns at `now`: present, with whether it
/// is expired.
pub open spec fn stale_lookup(
    m: Map<Seq<char>, CacheEntry<IPConfiguration>>,
    key: Seq<char>,
    now: u64,
) -> Option<(IPConfiguration, bool)> {
    if m.contains_key(key) {
        Some((m[key].data, m[key].expired_at(now)))
    } else {
        None
    }
}

/// `after` is `before` once `entry` is stored under `key` at `now`: eviction
/// runs first when `before` is at capacity.
pub open spec fn is_store<T>(
    before: Map<Seq<char>, CacheEntry<T>>,
    after: Map<Seq<char>, CacheEntry<T>>,
    key: Seq<char>,
    entry: CacheEntry<T>,
    now: u64,
) -> bool {
    if before.len() >= MAX_CACHE_ENTRIES {
        exists|kept: Map<Seq<char>, CacheEntry<T>>|
            is_eviction(before, kept, now) && after == #[trigger] kept.insert(key, entry)
    } else {
        after == before.insert(key, entry)
    }
}

/// Number of entries held, for diagnostics.
pub struct CacheStats {
    pub cached_configs: usize,
}

/// Cache of adapter configurations keyed by adapter name (case-sensitive).
pub struct NetworkCache {
    clock: Clock,
    table: SlotTable,
}

impl View for NetworkCache {
    type V = Map<Seq<char>, CacheEntry<IPConfiguration>>;

    closed spec fn view(&self) -> Self::V {
        self.table.contents@
    }
}

impl Default for NetworkCache {
    fn default() -> (r: Self)
        ensures
            r@ == Map::<Seq<char>, CacheEntry<IPConfiguration>>::empty(),
    {
        NetworkCache::new()
    }
}

impl NetworkCache {
    #[verifier::type_invariant]
    spec fn inv(&self) -> bool {
        &&& self.table.wf()
        &&& self.table.slots@.len() <= MAX_CACHE_ENTRIES
    }

    /// An empty cache with its own clock.
    pub fn new() -> (r: Self)
        ensures
            r@ == Map::<Seq<char>, CacheEntry<IPConfiguration>>::empty(),
    {
        NetworkCache { clock: Clock::new(), table: SlotTable::empty() }
    }

    /// Reads the cache's clock.
    pub fn now_nanos(&self) -> u64 {
        self.clock.now_nanos()
    }

    /// Copy of the configuration cached for `adapter_name` if it is present
    /// and unexpired at clock reading `now`. Expired entries stay in place.
    pub fn get_ip_config_at(&self, adapter_name: &str, now: u64) -> (r: Option<IPConfiguration>)
        ensures
            r == fresh_lookup(self@, adapter_name@, now),
    {
        proof {
            use_type_invariant(self);
        }
        let key = adapter_name.to_owned();
        match self.table.position(&key) {
            Some(i) => {
                let entry = &self.table.slots[i].1;
                if entry.is_expired(now) {
                    None
                } else {
                    Some(entry.data.clone())
                }
            },
            None => None,
        }
    }

    /// Copy of the configuration cached for `adapter_name` if it is present
    /// and unexpired now.
    pub fn get_ip_config(&self, adapter_name: &str) -> (r: Option<IPConfiguration>)
        ensures
            exists|t: u64| r == fresh_lookup(self@, adapter_name@, t),
    {
        let now = self.now_nanos();
        self.get_ip_config_at(adapter_name, now)
    }

    /// Copy of the configuration cached for `adapter_name`, expired or not,
    /// with whether it is expired at clock reading `now`.
    pub fn get_ip_config_stale_at(&self, adapter_name: &str, now: u64) -> (r: Option<
        (IPConfiguration, bool),
    >)
        ensures
            r == stale_lookup(self@, adapter_name@, now),
    {
        proof {
            use_type_invariant(self);
        }
        let key = adapter_name.to_owned();
        match self.table.position(&key) {
            Some(i) => {
                let entry = &self.table.slots[i].1;
                Some((entry.data.clone(), entry.is_expired(now)))
            },
            None => None,
        }
    }

    /// Copy of the configuration cached for `adapter_name`, expired or not,
    /// with whether it is expired now.
    pub fn get_ip_config_stale(&self, adapter_name: &str) -> (r: Option<(IPConfiguration, bool)>)
        ensures
            exists|t: u64| r == stale_lookup(self@, adapter_name@, t),
    {
        let now = self.now_nanos();
        self.get_ip_config_stale_at(adapter_name, now)
    }

    /// Stores `config` for `adapter_name`, created at `now` with a TTL of
    /// `ttl_secs`, evicting first when the cache is full.
    pub fn set_ip_config_with_ttl_at(
        &mut self,
        adapter_name: &str,
        config: IPConfiguration,
        ttl_secs: u64,
        now: u64,
    )
        ensures
            is_store(
                old(self)@,
                final(self)@,
                adapter_name@,
                (CacheEntry { data: config, created_at: now, ttl_secs }),
                now,
            ),
            final(self)@.len() <= MAX_CACHE_ENTRIES,
            final(self)@.dom().finite(),
    {
        proof {
            use_type_invariant(&*self);
        }
        let mut table = SlotTable::empty();
        std::mem::swap(&mut table, &mut self.table);
        let ghost before = table.contents@;
        if table.slots.len() >= MAX_CACHE_ENTRIES {
            table.evict(now);
            let ghost kept = table.contents@;
            proof {
                if unexpired(before, now).len() < MAX_CACHE_ENTRIES {
                    assert(table.slots@.len() < MAX_CACHE_ENTRIES);
                }
            }
            table.put(adapter_name.to_owned(), CacheEntry::with_ttl(config, ttl_secs, now));
            assert(is_eviction(before, kept, now));
        } else {
            table.put(adapter_name.to_owned(), CacheEntry::with_ttl(config, ttl_secs, now));
        }
        self.table = table;
    }

    /// Stores `config` for `adapter_name` with a TTL of `ttl_secs`, created now.
    pub fn set_ip_config_with_ttl(&mut self, adapter_name: &str, config: IPConfiguration, ttl_secs: u64)
        ensures
            exists|t: u64|
                is_store(
                    old(self)@,
                    final(self)@,
                    adapter_name@,
                    (CacheEntry { data: config, created_at: t, ttl_secs }),
                    t,
                ),
            final(self)@.len() <= MAX_CACHE_ENTRIES,
            final(self)@.dom().finite(),
    {
        let now = self.now_nanos();
        self.set_ip_config_with_ttl_at(adapter_name, config, ttl_secs, now);
    }

    /// Stores `config` for `adapter_name`, created at `now` with the default TTL.
    pub fn set_ip_config_at(&mut self, adapter_name: &str, config: IPConfiguration, now: u64)
        ensures
            is_store(
                old(self)@,
                final(self)@,
                adapter_name@,
                (CacheEntry { data: config, created_at: now, ttl_secs: DEFAULT_TTL_SECS }),
                now,
            ),
            final(self)@.len() <= MAX_CACHE_ENTRIES,
            final(self)@.dom().finite(),
    {
        self.set_ip_config_with_ttl_at(adapter_name, config, DEFAULT_TTL_SECS, now);
    }

    /// Stores `config` for `adapter_name` with the default TTL, created now.
    pub fn set_ip_config(&mut self, adapter_name: &str, config: IPConfiguration)
        ensures
            exists|t: u64|
                is_store(
                    old(self)@,
                    final(self)@,
                    adapter_name@,
                    (CacheEntry { data: config, created_at: t, ttl_secs: DEFAULT_TTL_SECS }),
                    t,
                ),
            final(self)@.len() <= MAX_CACHE_ENTRIES,
            final(self)@.dom().finite(),
    {
        let now = self.now_nanos();
        self.set_ip_config_at(adapter_name, config, now);
    }

    /// Removes the entry for `adapter_name`, if any.
    pub fn invalidate_adapter(&mut self, adapter_name: &str)
        ensures
            final(self)@ == old(self)@.remove(adapter_name@),
    {
        proof {
            use_type_invariant(&*self);
        }
        let mut table = SlotTable::empty();
        std::mem::swap(&mut table, &mut self.table);
        table.remove(&adapter_name.to_owned());
        self.table = table;
    }

    /// Removes every entry.
    pub fn invalidate_all(&mut self)
        ensures
            final(self)@ == Map::<Seq<char>, CacheEntry<IPConfiguration>>::empty(),
    {
        self.table = SlotTable::empty();
    }

    /// The number of entries held.
    pub fn stats(&self) -> (r: CacheStats)
        ensures
            r.cached_configs == self@.len(),
    {
        proof {
            use_type_invariant(self);
        }
        CacheStats { cached_configs: self.table.slots.len() }
    }
}

/// An entry is never expired at the reading at which it was created.
pub proof fn lemma_new_entry_not_expired<T>(entry: CacheEntry<T>)
    ensures
        !entry.expired_at(entry.created_at),
{
}

/// With TTL `d` seconds, an entry is expired exactly when more than `d`
/// seconds have elapsed since its creation.
pub proof fn lemma_expiry_threshold<T>(entry: CacheEntry<T>, now: u64)
    requires
        now >= entry.created_at,
    ensures
        entry.expired_at(now) <==> now - entry.created_at > entry.ttl_secs * NANOS_PER_SEC,
        now - entry.created_at <= entry.ttl_secs * NANOS_PER_SEC ==> !entry.expired_at(now),
{
}

/// Storing a value and then reading it at the same clock reading gives that
/// value back.
pub proof fn lemma_get_after_set(
    before: Map<Seq<char>, CacheEntry<IPConfiguration>>,
    after: Map<Seq<char>, CacheEntry<IPConfiguration>>,
    key: Seq<char>,
    value: IPConfiguration,
    ttl_secs: u64,
    now: u64,
)
    requires
        is_store(before, after, key, (CacheEntry { data: value, created_at: now, ttl_secs }), now),
    ensures
        fresh_lookup(after, key, now) == Some(value),
        stale_lookup(after, key, now) == Some((value, false)),
{
    let entry = CacheEntry { data: value, created_at: now, ttl_secs };
    if before.len() >= MAX_CACHE_ENTRIES {
        let kept = choose|kept: Map<Seq<char>, CacheEntry<IPConfiguration>>|
            is_eviction(before, kept, now) && after == #[trigger] kept.insert(key, entry);
        assert(after[key] == entry);
    }
}

/// After an entry is invalidated, neither read finds it.
pub proof fn lemma_get_after_invalidate(
    before: Map<Seq<char>, CacheEntry<IPConfiguration>>,
    key: Seq<char>,
    now: u64,
)
    ensures
        fresh_lookup(before.remove(key), key, now) is None,
        stale_lookup(before.remove(key), key, now) is None,
{
}

/// After the whole cache is invalidated it holds no entry and no key is found.
pub proof fn lemma_get_after_invalidate_all(key: Seq<char>, now: u64)
    ensures
        Map::<Seq<char>, CacheEntry<IPConfiguration>>::empty().len() == 0,
        fresh_lookup(Map::empty(), key, now) is None,
        stale_lookup(Map::empty(), key, now) is None,
{
}

/// Storing a new key into a full cache evicts at least one earlier entry and
/// keeps the size within bounds.
pub proof fn lemma_store_into_full_cache_evicts<T>(
    before: Map<Seq<char>, CacheEntry<T>>,
    after: Map<Seq<char>, CacheEntry<T>>,
    key: Seq<char>,
    entry: CacheEntry<T>,
    now: u64,
)
    requires
        before.dom().finite(),
        before.len() >= MAX_CACHE_ENTRIES,
        !before.contains_key(key),
        is_store(before, after, key, entry, now),
    ensures
        after.len() <= MAX_CACHE_ENTRIES,
        exists|k: Seq<char>| before.contains_key(k) && !after.contains_key(k),
{
    let kept = choose|kept: Map<Seq<char>, CacheEntry<T>>|
        is_eviction(before, kept, now) && after == #[trigger] kept.insert(key, entry);
    let fresh = unexpired(before, now);
    assert(fresh.dom().subset_of(before.dom()));
    lemma_len_subset(fresh.dom(), before.dom());
    assert(kept.dom().subset_of(fresh.dom()));
    lemma_len_subset(kept.dom(), fresh.dom());
    assert(kept.len() < before.len());
    if forall|k: Seq<char>| before.contains_key(k) ==> kept.contains_key(k) {
        assert(before.dom().subset_of(kept.dom()));
        lemma_len_subset(before.dom(), kept.dom());
    }
    let k = choose|k: Seq<char>| before.contains_key(k) && !kept.contains_key(k);
    assert(k != key);
    assert(!after.contains_key(k));
    assert(after.dom() == kept.dom().insert(key));
}

} // verus!
