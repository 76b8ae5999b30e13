//! Capacity-bounded, time-to-live cache in front of the store, keyed by
//! guild.
//!
//! The cache is never the system of record: every reader must tolerate a
//! miss, and a mutation must be written to the store before the cached
//! entry is refreshed or invalidated. Entries expire a fixed number of
//! seconds after insertion (absolute age, not sliding). When the cache is
//! full, the entry closest to expiry (the oldest stamp) is evicted; which
//! entry leaves is a policy that callers must not rely on.

use vstd::prelude::*;
use crate::state::{GameState, ServerConfig};

verus! {

/// Bound on the number of cached game states.
pub const GAME_CACHE_CAPACITY: usize = 1000;

/// Seconds after which a cached game state expires.
pub const GAME_CACHE_TTL: u64 = 300;

/// Bound on the number of cached per-guild configurations.
pub const CONFIG_CACHE_CAPACITY: usize = 10000;

/// Seconds after which a cached configuration expires.
pub const CONFIG_CACHE_TTL: u64 = 1800;

/// One cached entry: the key, the second at which it was inserted, and the
/// cached value.
pub struct CacheSlot<V> {
    pub key: u64,
    pub stamp: u64,
    pub value: V,
}

/// A bounded map from `u64` keys to values that forgets entries once their
/// age exceeds `ttl` seconds, and evicts the oldest entry when `capacity`
/// would be exceeded.
pub struct TtlCache<V> {
    pub slots: Vec<CacheSlot<V>>,
    pub capacity: usize,
    pub ttl: u64,
}

impl<V> TtlCache<V> {
    /// Keys are unique, and the slot list never exceeds the (positive)
    /// capacity.
    pub open spec fn wf(self) -> bool {
        &&& forall|i: int, j: int|
            0 <= i < j < self.slots@.len() ==> self.slots@[i].key != self.slots@[j].key
        &&& self.slots@.len() <= self.capacity
        &&& self.capacity >= 1
    }

    /// Whether an entry (fresh or stale) exists for the key.
    pub open spec fn spec_has(self, key: u64) -> bool {
        exists|i: int| 0 <= i < self.slots@.len() && self.slots@[i].key == key
    }

    /// Index of the entry for the key; meaningful when `spec_has` holds
    /// and the cache is well formed.
    pub open spec fn slot_index(self, key: u64) -> int {
        choose|i: int| 0 <= i < self.slots@.len() && self.slots@[i].key == key
    }

    /// The entry stored for the key.
    pub open spec fn spec_slot(self, key: u64) -> CacheSlot<V> {
        self.slots@[self.slot_index(key)]
    }

    /// Whether the entry for the key exists and has not yet expired at
    /// second `now`.
    pub open spec fn fresh_at(self, key: u64, now: u64) -> bool {
        &&& self.spec_has(key)
        &&& self.spec_slot(key).stamp <= now < self.spec_slot(key).stamp + self.ttl
    }

    /// What a lookup at second `now` serves: the stored value while the
    /// entry is fresh, and nothing once it expired or was invalidated.
    pub open spec fn spec_get(self, key: u64, now: u64) -> Option<V> {
        if self.fresh_at(key, now) {
            Some(self.spec_slot(key).value)
        } else {
            None
        }
    }

    /// In a well-formed cache, any index holding the key is the one
    /// `slot_index` denotes.
    pub proof fn lemma_slot_index_unique(self, key: u64, i: int)
        requires
            self.wf(),
            0 <= i < self.slots@.len(),
            self.slots@[i].key == key,
        ensures
            self.slot_index(key) == i,
    {
        assert(self.spec_has(key));
        let j = self.slot_index(key);
        if i != j {
            if i < j {
                assert(self.slots@[i].key != self.slots@[j].key);
            } else {
                assert(self.slots@[j].key != self.slots@[i].key);
            }
        }
    }

    /// An empty cache with the given bounds.
    pub fn new(capacity: usize, ttl: u64) -> (c: TtlCache<V>)
        requires
            capacity >= 1,
        ensures
            c.wf(),
            c.slots@.len() == 0,
            c.capacity == capacity,
            c.ttl == ttl,
    {
        TtlCache { slots: Vec::new(), capacity, ttl }
    }

    /// Index of the entry for the key, if one exists.
    fn find_slot(&self, key: u64) -> (r: Option<usize>)
        ensures
            match r {
                Some(i) => i < self.slots@.len() && self.slots@[i as int].key == key,
                None => !self.spec_has(key),
            },
    {
        let n = self.slots.len();
        let mut i: usize = 0;
        while i < n
            invariant
                n == self.slots@.len(),
                i <= n,
                forall|j: int| 0 <= j < i ==> self.slots@[j].key != key,
            decreases n - i,
        {
            if self.slots[i].key == key {
                return Some(i);
            }
            i = i + 1;
        }
        None
    }

    /// Look up the value cached for the key, honouring the time-to-live.
    pub fn get(&self, key: u64, now: u64) -> (r: Option<&V>)
        requires
            self.wf(),
        ensures
            match r {
                Some(v) => self.spec_get(key, now) == Some(*v),
                None => self.spec_get(key, now) is None,
            },
    {
        match self.find_slot(key) {
            Some(i) => {
                proof {
                    self.lemma_slot_index_unique(key, i as int);
                }
                let slot = &self.slots[i];
                if slot.stamp <= now && now - slot.stamp < self.ttl {
                    Some(&slot.value)
                } else {
                    None
                }
            },
            None => None,
        }
    }

    /// Insert or refresh the entry for the key, stamped with the current
    /// second. When the cache is full and the key is new, exactly one
    /// existing entry is evicted to make room; every other entry is kept
    /// unchanged.
    pub fn insert(&mut self, key: u64, value: V, now: u64)
        requires
            old(self).wf(),
        ensures
            final(self).wf(),
            final(self).capacity == old(self).capacity,
            final(self).ttl == old(self).ttl,
            final(self).spec_has(key),
            final(self).spec_slot(key).key == key,
            final(self).spec_slot(key).stamp == now,
            final(self).spec_slot(key).value == value,
            forall|k: u64|
                k != key && #[trigger] final(self).spec_has(k) ==> old(self).spec_has(k)
                    && final(self).spec_slot(k) == old(self).spec_slot(k),
            old(self).spec_has(key) || old(self).slots@.len() < old(self).capacity
                ==> forall|k: u64|
                    k != key && #[trigger] old(self).spec_has(k) ==> final(self).spec_has(k),
            !(old(self).spec_has(key) || old(self).slots@.len() < old(self).capacity) ==> (
            exists|k0: u64|
                k0 != key && #[trigger] old(self).spec_has(k0) && !final(self).spec_has(k0) && (
                forall|k: u64|
                    k != key && k != k0 && #[trigger] old(self).spec_has(k) ==> final(self).spec_has(k))),
    {
        let ghost pre = *self;
        match self.find_slot(key) {
            Some(i) => {
                proof {
                    pre.lemma_slot_index_unique(key, i as int);
                }
                self.slots.set(i, CacheSlot { key, stamp: now, value });
                proof {
                    assert(self.slots@[i as int].key == key);
                    assert(self.spec_has(key));
                    self.lemma_slot_index_unique(key, i as int);
                    assert forall|k: u64|
                        k != key && #[trigger] self.spec_has(k) implies pre.spec_has(k)
                        && self.spec_slot(k) == pre.spec_slot(k) by {
                        let j = choose|j: int|
                            0 <= j < self.slots@.len() && self.slots@[j].key == k;
                        assert(j != i);
                        assert(pre.slots@[j].key == k);
                        pre.lemma_slot_index_unique(k, j);
                        self.lemma_slot_index_unique(k, j);
                    }
                    assert forall|k: u64|
                        k != key && #[trigger] pre.spec_has(k) implies self.spec_has(k) by {
                        let j = choose|j: int| 0 <= j < pre.slots@.len() && pre.slots@[j].key == k;
                        assert(self.slots@[j].key == k);
                    }
                }
            },
            None => {
                if self.slots.len() == self.capacity {
                    let m = self.oldest_slot();
                    let ghost victim = self.slots@[m as int].key;
                    self.slots.remove(m);
                    let ghost mid = *self;
                    self.slots.push(CacheSlot { key, stamp: now, value });
                    proof {
                        assert(self.slots@[self.slots@.len() - 1].key == key);
                        assert(self.spec_has(key));
                        self.lemma_slot_index_unique(key, self.slots@.len() - 1);
                        assert(!mid.spec_has(victim)) by {
                            if mid.spec_has(victim) {
                                let j = choose|j: int|
                                    0 <= j < mid.slots@.len() && mid.slots@[j].key == victim;
                                let oj: int = if j < m { j } else { j + 1 };
                                assert(pre.slots@[oj].key == victim);
                                if oj < m {
                                    assert(pre.slots@[oj].key != pre.slots@[m as int].key);
                                } else {
                                    assert(pre.slots@[m as int].key != pre.slots@[oj].key);
                                }
                            }
                        }
                        assert(!self.spec_has(victim)) by {
                            if self.spec_has(victim) {
                                let j = choose|j: int|
                                    0 <= j < self.slots@.len() && self.slots@[j].key == victim;
                                assert(j < self.slots@.len() - 1);
                                assert(mid.slots@[j].key == victim);
                            }
                        }
                        assert forall|k: u64|
                            k != key && #[trigger] self.spec_has(k) implies pre.spec_has(k)
                            && self.spec_slot(k) == pre.spec_slot(k) by {
                            let j = choose|j: int|
                                0 <= j < self.slots@.len() && self.slots@[j].key == k;
                            assert(j < self.slots@.len() - 1);
                            let oj: int = if j < m { j } else { j + 1 };
                            assert(pre.slots@[oj].key == k);
                            pre.lemma_slot_index_unique(k, oj);
                            self.lemma_slot_index_unique(k, j);
                        }
                        assert forall|k: u64|
                            k != key && k != victim && #[trigger] pre.spec_has(k) implies self
                            .spec_has(k) by {
                            let j = choose|j: int|
                                0 <= j < pre.slots@.len() && pre.slots@[j].key == k;
                            assert(j != m);
                            let nj: int = if j < m { j } else { j - 1 };
                            assert(self.slots@[nj].key == k);
                        }
                        assert(pre.spec_has(victim)) by {
                            assert(pre.slots@[m as int].key == victim);
                        }
                    }
                } else {
                    self.slots.push(CacheSlot { key, stamp: now, value });
                    proof {
                        assert(self.slots@[self.slots@.len() - 1].key == key);
                        assert(self.spec_has(key));
                        self.lemma_slot_index_unique(key, self.slots@.len() - 1);
                        assert forall|k: u64|
                            k != key && #[trigger] self.spec_has(k) implies pre.spec_has(k)
                            && self.spec_slot(k) == pre.spec_slot(k) by {
                            let j = choose|j: int|
                                0 <= j < self.slots@.len() && self.slots@[j].key == k;
                            assert(j < self.slots@.len() - 1);
                            assert(pre.slots@[j].key == k);
                            pre.lemma_slot_index_unique(k, j);
                            self.lemma_slot_index_unique(k, j);
                        }
                        assert forall|k: u64|
                            k != key && #[trigger] pre.spec_has(k) implies self.spec_has(k) by {
                            let j = choose|j: int|
                                0 <= j < pre.slots@.len() && pre.slots@[j].key == k;
                            assert(self.slots@[j].key == k);
                        }
                    }
                }
            },
        }
    }

    /// Index of the entry with the smallest stamp: the one closest to
    /// expiry, chosen as the eviction victim.
    fn oldest_slot(&self) -> (m: usize)
        requires
            self.slots@.len() >= 1,
        ensures
            m < self.slots@.len(),
            forall|j: int|
                0 <= j < self.slots@.len() ==> self.slots@[m as int].stamp <= #[trigger] self.slots@[j].stamp,
    {
        let n = self.slots.len();
        let mut m: usize = 0;
        let mut k: usize = 1;
        while k < n
            invariant
                n == self.slots@.len(),
                m < k <= n,
                forall|j: int| 0 <= j < k ==> self.slots@[m as int].stamp <= #[trigger] self.slots@[j].stamp,
            decreases n - k,
        {
            if self.slots[k].stamp < self.slots[m].stamp {
                m = k;
            }
            k = k + 1;
        }
        m
    }

    /// Drop the entry for the key, if any; every other entry is kept
    /// unchanged. A later lookup of this key cannot be served from the
    /// cache until a new value is inserted.
    pub fn invalidate(&mut self, key: u64)
        requires
            old(self).wf(),
        ensures
            final(self).wf(),
            final(self).capacity == old(self).capacity,
            final(self).ttl == old(self).ttl,
            !final(self).spec_has(key),
            forall|k: u64| k != key ==> final(self).spec_has(k) == old(self).spec_has(k),
            forall|k: u64|
                k != key && #[trigger] final(self).spec_has(k) ==> final(self).spec_slot(k)
                    == old(self).spec_slot(k),
    {
        let ghost pre = *self;
        match self.find_slot(key) {
            Some(i) => {
                self.slots.remove(i);
                proof {
                    assert(!self.spec_has(key)) by {
                        if self.spec_has(key) {
                            let j = choose|j: int|
                                0 <= j < self.slots@.len() && self.slots@[j].key == key;
                            let oj: int = if j < i { j } else { j + 1 };
                            assert(pre.slots@[oj].key == key);
                            if oj < i {
                                assert(pre.slots@[oj].key != pre.slots@[i as int].key);
                            } else {
                                assert(pre.slots@[i as int].key != pre.slots@[oj].key);
                            }
                        }
                    }
                    assert forall|k: u64|
                        k != key && #[trigger] self.spec_has(k) implies pre.spec_has(k)
                        && self.spec_slot(k) == pre.spec_slot(k) by {
                        let j = choose|j: int|
                            0 <= j < self.slots@.len() && self.slots@[j].key == k;
                        let oj: int = if j < i { j } else { j + 1 };
                        assert(pre.slots@[oj].key == k);
                        pre.lemma_slot_index_unique(k, oj);
                        self.lemma_slot_index_unique(k, j);
                    }
                    assert forall|k: u64|
                        k != key && #[trigger] pre.spec_has(k) implies self.spec_has(k) by {
                        let j = choose|j: int| 0 <= j < pre.slots@.len() && pre.slots@[j].key == k;
                        assert(j != i);
                        let nj: int = if j < i { j } else { j - 1 };
                        assert(self.slots@[nj].key == k);
                    }
                }
            },
            None => {},
        }
    }
}

/// After an entry was invalidated, no lookup of that key is served from
/// the cache, no matter the clock: the previously cached value cannot be
/// observed again.
pub proof fn lemma_invalidated_never_served<V>(c: TtlCache<V>, key: u64, now: u64)
    requires
        !c.spec_has(key),
    ensures
        c.spec_get(key, now) is None,
{
}

/// The cache pair serving the session manager: game state per guild and
/// per-guild configuration, each with its own bounds.
pub struct GameCache {
    pub games: TtlCache<GameState>,
    pub configs: TtlCache<ServerConfig>,
}

impl GameCache {
    /// Both caches are well formed and carry the intended bounds.
    pub open spec fn wf(self) -> bool {
        &&& self.games.wf()
        &&& self.configs.wf()
        &&& self.games.capacity == GAME_CACHE_CAPACITY
        &&& self.games.ttl == GAME_CACHE_TTL
        &&& self.configs.capacity == CONFIG_CACHE_CAPACITY
        &&& self.configs.ttl == CONFIG_CACHE_TTL
    }

    /// An empty cache pair.
    pub fn new() -> (c: GameCache)
        ensures
            c.wf(),
            c.games.slots@.len() == 0,
            c.configs.slots@.len() == 0,
    {
        GameCache {
            games: TtlCache::new(GAME_CACHE_CAPACITY, GAME_CACHE_TTL),
            configs: TtlCache::new(CONFIG_CACHE_CAPACITY, CONFIG_CACHE_TTL),
        }
    }

    /// The game state cached for the guild, while fresh.
    pub fn get_game(&self, guild_id: u64, now: u64) -> (r: Option<GameState>)
        requires
            self.wf(),
        ensures
            match r {
                Some(g) => self.games.spec_get(guild_id, now) matches Some(v) && g@ == v@,
                None => self.games.spec_get(guild_id, now) is None,
            },
    {
        match self.games.get(guild_id, now) {
            Some(g) => Some(g.duplicate()),
            None => None,
        }
    }

    /// Cache the game state for its guild.
    pub fn set_game(&mut self, guild_id: u64, game: GameState, now: u64)
        requires
            old(self).wf(),
        ensures
            final(self).wf(),
            final(self).configs == old(self).configs,
            final(self).games.spec_has(guild_id),
            final(self).games.spec_slot(guild_id).stamp == now,
            final(self).games.spec_slot(guild_id).value == game,
            forall|k: u64|
                k != guild_id && #[trigger] final(self).games.spec_has(k) ==> old(self).games.spec_has(k) && final(self).games.spec_slot(k) == old(self).games.spec_slot(
                    k,
                ),
    {
        self.games.insert(guild_id, game, now);
    }

    /// Forget the cached game state for the guild.
    pub fn invalidate_game(&mut self, guild_id: u64)
        requires
            old(self).wf(),
        ensures
            final(self).wf(),
            final(self).configs == old(self).configs,
            !final(self).games.spec_has(guild_id),
            forall|k: u64|
                k != guild_id ==> final(self).games.spec_has(k) == old(self).games.spec_has(k),
            forall|k: u64|
                k != guild_id && #[trigger] final(self).games.spec_has(k) ==> final(self).games.spec_slot(k) == old(self).games.spec_slot(k),
    {
        self.games.invalidate(guild_id);
    }

    /// The configuration cached for the guild, while fresh.
    pub fn get_server_config(&self, guild_id: u64, now: u64) -> (r: Option<ServerConfig>)
        requires
            self.wf(),
        ensures
            r == self.configs.spec_get(guild_id, now),
    {
        match self.configs.get(guild_id, now) {
            Some(c) => Some(c.duplicate()),
            None => None,
        }
    }

    /// Cache the configuration for its guild.
    pub fn set_server_config(&mut self, guild_id: u64, config: ServerConfig, now: u64)
        requires
            old(self).wf(),
        ensures
            final(self).wf(),
            final(self).games == old(self).games,
            final(self).configs.spec_has(guild_id),
            final(self).configs.spec_slot(guild_id).stamp == now,
            final(self).configs.spec_slot(guild_id).value == config,
            forall|k: u64|
                k != guild_id && #[trigger] final(self).configs.spec_has(k) ==> old(self).configs.spec_has(k) && final(self).configs.spec_slot(k) == old(self).configs.spec_slot(k),
    {
        self.configs.insert(guild_id, config, now);
    }
}

} // verus!
