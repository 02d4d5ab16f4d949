//! A time-bounded cache of query results, keyed by the fingerprint of the
//! query.
//!
//! Time is a number of nanoseconds on a monotonic clock. Every operation that
//! depends on the time takes the reading as an argument, so an entry's
//! validity is a function of the entry and the reading alone.

use crate::clock::NANOS_PER_SECOND;
use crate::fingerprint::{fingerprint, fingerprint_of, texts};
use vstd::prelude::*;

verus! {

/// A cached value with the time of its creation and its time to live, both in
/// nanoseconds.
pub struct CacheEntry<V> {
    pub data: V,
    pub created_at: u128,
    pub ttl: u128,
}

impl<V> CacheEntry<V> {
    /// The nanoseconds that have passed since the entry was created; zero for
    /// a reading that lies before the creation.
    pub open spec fn age_at(&self, now: u128) -> int {
        if now >= self.created_at {
            now - self.created_at
        } else {
            0
        }
    }

    /// An entry is valid while its age is below its time to live.
    pub open spec fn valid_at(&self, now: u128) -> bool {
        self.age_at(now) < self.ttl
    }

    /// The nanoseconds left until the entry expires; zero once it has.
    pub open spec fn remaining_at(&self, now: u128) -> int {
        if self.valid_at(now) {
            self.ttl - self.age_at(now)
        } else {
            0
        }
    }

    /// Creates an entry that holds `data`, created at `now`.
    pub fn new(data: V, ttl: u128, now: u128) -> (entry: Self)
        ensures
            entry == (CacheEntry { data, created_at: now, ttl }),
    {
        CacheEntry { data, created_at: now, ttl }
    }

    /// Whether the entry is still valid at `now`.
    pub fn is_valid(&self, now: u128) -> (valid: bool)
        ensures
            valid == self.valid_at(now),
    {
        now.saturating_sub(self.created_at) < self.ttl
    }

    /// The time left at `now` until the entry expires.
    pub fn remaining_ttl(&self, now: u128) -> (left: u128)
        ensures
            left as int == self.remaining_at(now),
    {
        self.ttl.saturating_sub(now.saturating_sub(self.created_at))
    }
}

/// Counts of a cache's entries at one moment, with the cache's default time
/// to live in nanoseconds.
pub struct CacheStats {
    pub total_entries: usize,
    pub valid_entries: usize,
    pub expired_entries: usize,
    pub default_ttl: u128,
}

/// One stored key with its entry.
struct Slot<V> {
    key: String,
    entry: CacheEntry<V>,
}

/// What a map of entries answers to a lookup of `key` at `now`: the value of
/// the entry under that key if there is one and it is valid, else nothing.
pub open spec fn lookup<V>(entries: Map<Seq<char>, CacheEntry<V>>, key: Seq<char>, now: u128)
    -> Option<V> {
    if entries.dom().contains(key) && entries[key].valid_at(now) {
        Some(entries[key].data)
    } else {
        None
    }
}

/// The keys of a map of entries whose entries are valid at `now`.
pub open spec fn valid_keys<V>(entries: Map<Seq<char>, CacheEntry<V>>, now: u128) -> Set<
    Seq<char>,
> {
    entries.dom().filter(|key: Seq<char>| entries[key].valid_at(now))
}

/// A map of entries without those that have expired at `now`.
pub open spec fn without_expired<V>(entries: Map<Seq<char>, CacheEntry<V>>, now: u128) -> Map<
    Seq<char>,
    CacheEntry<V>,
> {
    entries.restrict(valid_keys(entries, now))
}

/// No key stands in two slots.
spec fn distinct_keys<V>(slots: Seq<Slot<V>>) -> bool {
    forall|i: int, j: int|
        0 <= i < j < slots.len() ==> (#[trigger] slots[i]).key@ != (#[trigger] slots[j]).key@
}

/// Whether some slot holds `key`.
spec fn holds_key<V>(slots: Seq<Slot<V>>, key: Seq<char>) -> bool {
    exists|i: int| 0 <= i < slots.len() && (#[trigger] slots[i]).key@ == key
}

/// The index of a slot that holds `key`.
spec fn slot_of<V>(slots: Seq<Slot<V>>, key: Seq<char>) -> int {
    choose|i: int| 0 <= i < slots.len() && (#[trigger] slots[i]).key@ == key
}

/// The map that a sequence of slots stands for.
spec fn slots_map<V>(slots: Seq<Slot<V>>) -> Map<Seq<char>, CacheEntry<V>> {
    Map::new(
        |key: Seq<char>| holds_key(slots, key),
        |key: Seq<char>| slots[slot_of(slots, key)].entry,
    )
}

/// With distinct keys, each slot is what the map holds under the slot's key.
proof fn lemma_slot_in_map<V>(slots: Seq<Slot<V>>, i: int)
    requires
        distinct_keys(slots),
        0 <= i < slots.len(),
    ensures
        slots_map(slots).dom().contains(slots[i].key@),
        slots_map(slots)[slots[i].key@] == slots[i].entry,
{
    let key = slots[i].key@;
    assert(holds_key(slots, key));
    let j = slot_of(slots, key);
    assert(0 <= j < slots.len() && slots[j].key@ == key);
    if j < i {
        assert(slots[j].key@ != slots[i].key@);
    } else if i < j {
        assert(slots[i].key@ != slots[j].key@);
    }
}

/// The slots valid at `now`, counted.
spec fn count_valid<V>(slots: Seq<Slot<V>>, now: u128) -> nat
    decreases slots.len(),
{
    if slots.len() == 0 {
        0
    } else {
        let rest = count_valid(slots.drop_last(), now);
        if slots.last().entry.valid_at(now) {
            rest + 1
        } else {
            rest
        }
    }
}

/// With distinct keys, the map has one key for each slot, and as many valid
/// keys as there are valid slots.
proof fn lemma_map_sizes<V>(slots: Seq<Slot<V>>, now: u128)
    requires
        distinct_keys(slots),
    ensures
        slots_map(slots).dom().finite(),
        slots_map(slots).dom().len() == slots.len(),
        valid_keys(slots_map(slots), now).finite(),
        valid_keys(slots_map(slots), now).len() == count_valid(slots, now),
    decreases slots.len(),
{
    let all = slots_map(slots);
    if slots.len() == 0 {
        assert(all.dom() =~= Set::<Seq<char>>::empty());
        assert(valid_keys(all, now) =~= Set::<Seq<char>>::empty());
    } else {
        let front = slots.drop_last();
        let last = slots.last();
        let before = slots_map(front);
        assert forall|i: int, j: int| 0 <= i < j < front.len() implies (#[trigger] front[i]).key@
            != (#[trigger] front[j]).key@ by {
            assert(front[i] == slots[i] && front[j] == slots[j]);
        }
        lemma_map_sizes(front, now);
        assert(!before.dom().contains(last.key@)) by {
            if holds_key(front, last.key@) {
                let i = slot_of(front, last.key@);
                assert(slots[i] == front[i]);
                assert(slots[i].key@ != slots[slots.len() - 1].key@);
            }
        }
        assert forall|key: Seq<char>| all.dom().contains(key) <==> before.dom().insert(
            last.key@,
        ).contains(key) by {
            if holds_key(slots, key) {
                let i = slot_of(slots, key);
                if i < front.len() {
                    assert(front[i].key@ == key);
                }
            }
            if holds_key(front, key) {
                let i = slot_of(front, key);
                assert(slots[i].key@ == key);
            }
            if key == last.key@ {
                assert(slots[slots.len() - 1].key@ == key);
            }
        }
        assert(all.dom() =~= before.dom().insert(last.key@));
        lemma_slot_in_map(slots, slots.len() - 1);
        assert forall|key: Seq<char>| before.dom().contains(key) implies all[key]
            == before[key] by {
            let i = slot_of(front, key);
            lemma_slot_in_map(front, i);
            assert(slots[i] == front[i]);
            lemma_slot_in_map(slots, i);
        }
        if last.entry.valid_at(now) {
            assert(valid_keys(all, now) =~= valid_keys(before, now).insert(last.key@));
        } else {
            assert(valid_keys(all, now) =~= valid_keys(before, now));
        }
    }
}

/// Replacing the slot of a key by another slot of that key stores the new
/// entry under the key.
proof fn lemma_store_in_place<V>(before: Seq<Slot<V>>, i: int, slot: Slot<V>)
    requires
        distinct_keys(before),
        0 <= i < before.len(),
        before[i].key@ == slot.key@,
    ensures
        distinct_keys(before.update(i, slot)),
        slots_map(before.update(i, slot)) == slots_map(before).insert(slot.key@, slot.entry),
{
    let after = before.update(i, slot);
    let stored = slots_map(before).insert(slot.key@, slot.entry);
    assert forall|a: int, b: int| 0 <= a < b < after.len() implies (#[trigger] after[a]).key@
        != (#[trigger] after[b]).key@ by {
        assert(after[a].key@ == before[a].key@);
        assert(after[b].key@ == before[b].key@);
    }
    assert forall|k: Seq<char>| holds_key(after, k) <==> stored.dom().contains(k) by {
        if holds_key(after, k) {
            let j = slot_of(after, k);
            assert(before[j].key@ == k);
        }
        if holds_key(before, k) {
            let j = slot_of(before, k);
            assert(after[j].key@ == k);
        }
        if k == slot.key@ {
            assert(after[i].key@ == k);
        }
    }
    assert forall|k: Seq<char>| holds_key(after, k) implies slots_map(after)[k] == stored[k] by {
        let j = slot_of(after, k);
        lemma_slot_in_map(after, j);
        if j != i {
            assert(after[j] == before[j]);
            lemma_slot_in_map(before, j);
            if j < i {
                assert(before[j].key@ != before[i].key@);
            } else {
                assert(before[i].key@ != before[j].key@);
            }
        }
    }
    assert(slots_map(after) =~= stored);
}

/// Appending a slot of a key that no slot holds stores the new entry under
/// the key.
proof fn lemma_store_at_end<V>(before: Seq<Slot<V>>, slot: Slot<V>)
    requires
        distinct_keys(before),
        !holds_key(before, slot.key@),
    ensures
        distinct_keys(before.push(slot)),
        slots_map(before.push(slot)) == slots_map(before).insert(slot.key@, slot.entry),
{
    let after = before.push(slot);
    let last = before.len() as int;
    let stored = slots_map(before).insert(slot.key@, slot.entry);
    assert forall|a: int, b: int| 0 <= a < b < after.len() implies (#[trigger] after[a]).key@
        != (#[trigger] after[b]).key@ by {
        assert(after[a] == before[a]);
        if b < last {
            assert(after[b] == before[b]);
        }
    }
    assert forall|k: Seq<char>| holds_key(after, k) <==> stored.dom().contains(k) by {
        if holds_key(after, k) {
            let j = slot_of(after, k);
            if j < last {
                assert(before[j].key@ == k);
            }
        }
        if holds_key(before, k) {
            let j = slot_of(before, k);
            assert(after[j].key@ == k);
        }
        if k == slot.key@ {
            assert(after[last].key@ == k);
        }
    }
    assert forall|k: Seq<char>| holds_key(after, k) implies slots_map(after)[k] == stored[k] by {
        let j = slot_of(after, k);
        lemma_slot_in_map(after, j);
        if j < last {
            assert(after[j] == before[j]);
            lemma_slot_in_map(before, j);
        }
    }
    assert(slots_map(after) =~= stored);
}

/// Whether `kept` holds only slots of `all`, and each of them that is valid
/// at `now`.
spec fn keeps_the_valid<V>(all: Seq<Slot<V>>, kept: Seq<Slot<V>>, now: u128) -> bool {
    &&& forall|j: int| 0 <= j < kept.len() ==> all.contains(#[trigger] kept[j])
    &&& forall|j: int|
        0 <= j < all.len() && all[j].entry.valid_at(now) ==> kept.contains(#[trigger] all[j])
}

/// Removing an expired slot keeps the valid ones, and keeps the keys apart.
proof fn lemma_remove_expired<V>(all: Seq<Slot<V>>, kept: Seq<Slot<V>>, i: int, now: u128)
    requires
        distinct_keys(kept),
        keeps_the_valid(all, kept, now),
        0 <= i < kept.len(),
        !kept[i].entry.valid_at(now),
    ensures
        distinct_keys(kept.remove(i)),
        keeps_the_valid(all, kept.remove(i), now),
        forall|j: int| 0 <= j < i ==> kept.remove(i)[j] == kept[j],
{
    let next = kept.remove(i);
    assert forall|a: int, b: int| 0 <= a < b < next.len() implies (#[trigger] next[a]).key@
        != (#[trigger] next[b]).key@ by {
        let a0 = if a < i { a } else { a + 1 };
        let b0 = if b < i { b } else { b + 1 };
        assert(next[a] == kept[a0] && next[b] == kept[b0]);
    }
    assert forall|j: int| 0 <= j < next.len() implies all.contains(#[trigger] next[j]) by {
        let j0 = if j < i { j } else { j + 1 };
        assert(next[j] == kept[j0]);
    }
    assert forall|j: int| 0 <= j < all.len() && all[j].entry.valid_at(now) implies next.contains(
        #[trigger] all[j],
    ) by {
        assert(kept.contains(all[j]));
        let w = choose|w: int| 0 <= w < kept.len() && kept[w] == all[j];
        let w1 = if w < i { w } else { w - 1 };
        assert(next[w1] == all[j]);
    }
}

/// Slots that are all valid and keep the valid ones of `all` stand for the
/// map of `all` without its expired entries.
proof fn lemma_kept_is_without_expired<V>(all: Seq<Slot<V>>, kept: Seq<Slot<V>>, now: u128)
    requires
        distinct_keys(all),
        distinct_keys(kept),
        keeps_the_valid(all, kept, now),
        forall|j: int| 0 <= j < kept.len() ==> (#[trigger] kept[j]).entry.valid_at(now),
    ensures
        slots_map(kept) == without_expired(slots_map(all), now),
{
    let whole = slots_map(all);
    assert forall|k: Seq<char>| holds_key(kept, k) <==> (holds_key(all, k) && whole[k].valid_at(
        now,
    )) by {
        if holds_key(kept, k) {
            let j = slot_of(kept, k);
            assert(all.contains(kept[j]));
            let o = choose|o: int| 0 <= o < all.len() && all[o] == kept[j];
            lemma_slot_in_map(all, o);
        }
        if holds_key(all, k) && whole[k].valid_at(now) {
            let o = slot_of(all, k);
            lemma_slot_in_map(all, o);
            assert(kept.contains(all[o]));
            let j = choose|j: int| 0 <= j < kept.len() && kept[j] == all[o];
            assert(kept[j].key@ == k);
        }
    }
    assert forall|k: Seq<char>| holds_key(kept, k) implies slots_map(kept)[k] == whole[k] by {
        let j = slot_of(kept, k);
        lemma_slot_in_map(kept, j);
        assert(all.contains(kept[j]));
        let o = choose|o: int| 0 <= o < all.len() && all[o] == kept[j];
        lemma_slot_in_map(all, o);
    }
    assert(slots_map(kept) =~= without_expired(whole, now));
}

/// A time-bounded cache from fingerprints to values of type `V`.
///
/// The cache is a map from keys to entries, its view. An entry that has
/// expired stays in the map, where `stats` still counts it, until
/// `cleanup_expired` or `clear` removes it; `get` treats it as absent.
pub struct OpenStackCache<V> {
    slots: Vec<Slot<V>>,
    default_ttl: u128,
}

impl<V> View for OpenStackCache<V> {
    type V = Map<Seq<char>, CacheEntry<V>>;

    closed spec fn view(&self) -> Map<Seq<char>, CacheEntry<V>> {
        slots_map(self.slots@)
    }
}

impl<V> OpenStackCache<V> {
    /// The cache is well formed: it holds each key once. Every operation
    /// keeps it so.
    pub closed spec fn wf(&self) -> bool {
        distinct_keys(self.slots@)
    }

    /// The time to live, in nanoseconds, of the entries that `set` stores.
    pub closed spec fn default_ttl(&self) -> u128 {
        self.default_ttl
    }

    /// A well-formed cache holds finitely many entries.
    pub proof fn lemma_view_is_finite(&self)
        requires
            self.wf(),
        ensures
            self@.dom().finite(),
    {
        lemma_map_sizes(self.slots@, 0);
    }

    /// Creates an empty cache.
    pub fn new(default_ttl: u128) -> (cache: Self)
        ensures
            cache.wf(),
            cache@ == Map::<Seq<char>, CacheEntry<V>>::empty(),
            cache.default_ttl() == default_ttl,
    {
        let cache = OpenStackCache { slots: Vec::new(), default_ttl };
        assert(cache@ =~= Map::<Seq<char>, CacheEntry<V>>::empty());
        cache
    }

    /// The key under which the result of a query is stored: the fingerprint
    /// of the command and its ordered arguments.
    pub fn generate_key(&self, command: &str, params: &[String]) -> (key: String)
        ensures
            key@ == fingerprint_of(command@, texts(params@)),
            key@.len() == 64,
    {
        fingerprint(command, params)
    }

    /// The index of the slot that holds `key`, if one does.
    fn find(&self, key: &String) -> (found: Option<usize>)
        ensures
            match found {
                Some(i) => i < self.slots@.len() && self.slots@[i as int].key@ == key@,
                None => !holds_key(self.slots@, key@),
            },
    {
        let mut i: usize = 0;
        while i < self.slots.len()
            invariant
                i <= self.slots@.len(),
                forall|j: int| 0 <= j < i ==> (#[trigger] self.slots@[j]).key@ != key@,
            decreases self.slots@.len() - i,
        {
            if self.slots[i].key == *key {
                return Some(i);
            }
            i += 1;
        }
        None
    }

    /// Looks `key` up at the time `now`.
    ///
    /// Returns the stored value if the key has an entry and the entry is
    /// valid at `now`. An expired entry is a miss; it is not removed.
    pub fn get(&self, key: &str, now: u128) -> (found: Option<&V>)
        requires
            self.wf(),
        ensures
            match found {
                Some(value) => lookup(self@, key@, now) == Some(*value),
                None => lookup(self@, key@, now) is None,
            },
    {
        let wanted = key.to_owned();
        match self.find(&wanted) {
            Some(i) => {
                proof {
                    lemma_slot_in_map(self.slots@, i as int);
                }
                let entry = &self.slots[i].entry;
                if entry.is_valid(now) {
                    Some(&entry.data)
                } else {
                    None
                }
            },
            None => None,
        }
    }

    /// Stores `entry` under `key`, in place of the entry that the key had.
    fn store(&mut self, key: String, entry: CacheEntry<V>)
        requires
            old(self).wf(),
        ensures
            final(self).wf(),
            final(self)@ == old(self)@.insert(key@, entry),
            final(self).default_ttl() == old(self).default_ttl(),
    {
        let ghost before = self.slots@;
        let slot = Slot { key, entry };
        match self.find(&slot.key) {
            Some(i) => {
                proof {
                    lemma_store_in_place(before, i as int, slot);
                }
                self.slots[i] = slot;
            },
            None => {
                proof {
                    lemma_store_at_end(before, slot);
                }
                self.slots.push(slot);
            },
        }
    }

    /// Stores `data` under `key` with the cache's default time to live.
    ///
    /// The entry is created at `now`. An entry that the key already had is
    /// discarded, whatever its age.
    pub fn set(&mut self, key: String, data: V, now: u128)
        requires
            old(self).wf(),
        ensures
            final(self).wf(),
            final(self)@ == old(self)@.insert(
                key@,
                CacheEntry { data, created_at: now, ttl: old(self).default_ttl() },
            ),
            final(self).default_ttl() == old(self).default_ttl(),
    {
        let entry = CacheEntry::new(data, self.default_ttl, now);
        self.store(key, entry);
    }

    /// Stores `data` under `key` with a time to live of its own.
    pub fn set_with_ttl(&mut self, key: String, data: V, ttl: u128, now: u128)
        requires
            old(self).wf(),
        ensures
            final(self).wf(),
            final(self)@ == old(self)@.insert(key@, CacheEntry { data, created_at: now, ttl }),
            final(self).default_ttl() == old(self).default_ttl(),
    {
        let entry = CacheEntry::new(data, ttl, now);
        self.store(key, entry);
    }

    /// Removes every entry that has expired at `now`, and no other.
    pub fn cleanup_expired(&mut self, now: u128)
        requires
            old(self).wf(),
        ensures
            final(self).wf(),
            final(self)@ == without_expired(old(self)@, now),
            final(self).default_ttl() == old(self).default_ttl(),
    {
        let ghost before = self.slots@;
        let mut i: usize = 0;
        while i < self.slots.len()
            invariant
                i <= self.slots@.len(),
                distinct_keys(before),
                distinct_keys(self.slots@),
                keeps_the_valid(before, self.slots@, now),
                self.default_ttl == old(self).default_ttl,
                forall|j: int| 0 <= j < i ==> (#[trigger] self.slots@[j]).entry.valid_at(now),
            decreases self.slots@.len() - i,
        {
            if self.slots[i].entry.is_valid(now) {
                i += 1;
            } else {
                proof {
                    lemma_remove_expired(before, self.slots@, i as int, now);
                }
                self.slots.remove(i);
            }
        }
        proof {
            lemma_kept_is_without_expired(before, self.slots@, now);
        }
    }

    /// Removes every entry.
    pub fn clear(&mut self)
        requires
            old(self).wf(),
        ensures
            final(self).wf(),
            final(self)@ == Map::<Seq<char>, CacheEntry<V>>::empty(),
            final(self).default_ttl() == old(self).default_ttl(),
    {
        self.slots.clear();
        assert(self@ =~= Map::<Seq<char>, CacheEntry<V>>::empty());
    }

    /// Counts the entries at the time `now`: all of them, those that are
    /// valid and those that have expired but are still stored.
    pub fn stats(&self, now: u128) -> (stats: CacheStats)
        requires
            self.wf(),
        ensures
            stats.total_entries == self@.dom().len(),
            stats.valid_entries == valid_keys(self@, now).len(),
            stats.expired_entries == stats.total_entries - stats.valid_entries,
            stats.default_ttl == self.default_ttl(),
    {
        let total = self.slots.len();
        let mut valid: usize = 0;
        let mut i: usize = 0;
        while i < total
            invariant
                total == self.slots@.len(),
                i <= total,
                valid <= i,
                valid == count_valid(self.slots@.take(i as int), now),
            decreases total - i,
        {
            proof {
                let upto = self.slots@.take(i + 1);
                assert(upto.drop_last() == self.slots@.take(i as int));
                assert(upto.last() == self.slots@[i as int]);
            }
            if self.slots[i].entry.is_valid(now) {
                valid += 1;
            }
            i += 1;
        }
        proof {
            assert(self.slots@.take(total as int) == self.slots@);
            lemma_map_sizes(self.slots@, now);
        }
        CacheStats {
            total_entries: total,
            valid_entries: valid,
            expired_entries: total - valid,
            default_ttl: self.default_ttl,
        }
    }
}

impl<V> Default for OpenStackCache<V> {
    /// An empty cache whose entries live for five minutes.
    fn default() -> (cache: Self)
        ensures
            cache.wf(),
            cache@ == Map::<Seq<char>, CacheEntry<V>>::empty(),
            cache.default_ttl() == 300 * NANOS_PER_SECOND,
    {
        OpenStackCache::new(300 * NANOS_PER_SECOND)
    }
}

/// A value that was stored is found under its key for as long as its entry
/// is valid, whatever the key held before.
pub proof fn law_stored_value_is_found_while_valid<V>(
    entries: Map<Seq<char>, CacheEntry<V>>,
    key: Seq<char>,
    entry: CacheEntry<V>,
    now: u128,
)
    requires
        entry.valid_at(now),
    ensures
        lookup(entries.insert(key, entry), key, now) == Some(entry.data),
{
}

/// Once its time to live has passed, a stored value is no longer found, but
/// its entry is still there and is counted, as expired, until the expired
/// entries are cleaned up or the cache is cleared.
pub proof fn law_expired_entry_is_absent_but_counted<V>(
    entries: Map<Seq<char>, CacheEntry<V>>,
    key: Seq<char>,
    entry: CacheEntry<V>,
    now: u128,
)
    requires
        entries.dom().finite(),
        !entry.valid_at(now),
    ensures
        ({
            let stored = entries.insert(key, entry);
            &&& lookup(stored, key, now) is None
            &&& stored.dom().contains(key)
            &&& stored.dom().len() - valid_keys(stored, now).len() >= 1
            &&& !without_expired(stored, now).dom().contains(key)
        }),
{
    let stored = entries.insert(key, entry);
    let valid = valid_keys(stored, now);
    assert(valid.subset_of(stored.dom().remove(key)));
    vstd::set_lib::lemma_len_subset(valid, stored.dom().remove(key));
}

/// An entry that has expired stays expired: the clock does not run
/// backwards.
pub proof fn law_expiry_is_final<V>(entry: CacheEntry<V>, earlier: u128, later: u128)
    requires
        earlier <= later,
        !entry.valid_at(earlier),
    ensures
        !entry.valid_at(later),
{
}

/// Cleaning up twice is cleaning up once.
pub proof fn law_cleanup_is_idempotent<V>(entries: Map<Seq<char>, CacheEntry<V>>, now: u128)
    ensures
        without_expired(without_expired(entries, now), now) == without_expired(entries, now),
{
    assert(without_expired(without_expired(entries, now), now) =~= without_expired(entries, now));
}

} // verus!
