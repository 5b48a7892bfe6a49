//! The disk cache without its disk: what each operation does to the index
//! and what it asks of the files.
use vstd::prelude::*;
use vstd::string::StringExecFns;
use crate::cache::index::{
    distinct_keys, entry_of, evict_for, evicted_keys, expired_keys, has_key, is_oldest, key_index,
    lemma_evict_for_fits, lemma_key_index_unique, lemma_oldest_exists, lemma_oldest_unique,
    lemma_reconciled_prefix, lemma_total_size_bounds, lemma_total_size_push, live_slots,
    oldest_index, reconciled, slot_views, total_size, touched, without_key, CacheIndex,
    CacheIndexEntry, IndexSlot, Slots,
};

verus! {


/// One cached payload.
#[derive(Debug, Clone)]
pub struct CacheEntry {
    pub key: String,
    pub value: Vec<u8>,
    /// Time-to-live in whole seconds.
    pub ttl_secs: u64,
}

/// Size of the store.
#[derive(Debug, Clone, Copy, PartialEq, Eq, Structural)]
pub struct CacheStoreStats {
    pub entries: usize,
    pub total_bytes: u64,
}

/// What storing one entry did to the others.
#[derive(Debug, Clone, Copy, PartialEq, Eq, Structural)]
pub struct CacheStorePutOutcome {
    pub evicted: usize,
}

/// Why a store could not do what was asked.
#[derive(Debug, Clone)]
pub enum CacheError {
    /// Reading or writing failed; the text says how.
    Io(String),
    /// The lock of the store was left poisoned.
    LockPoisoned,
}

/// What a backend of the cache can do. A backend guards its own state, so
/// all of it works through a shared reference.
pub trait CacheStore: Send + Sync {
    /// The live entry of `key`, if there is one.
    fn get(&self, key: &str) -> Result<Option<CacheEntry>, CacheError>;

    /// Stores `entry` and says how many entries left for it.
    fn put(&self, entry: CacheEntry) -> Result<CacheStorePutOutcome, CacheError>;

    /// Takes the entry of `key` out.
    fn remove(&self, key: &str) -> Result<(), CacheError>;

    /// Takes every entry out.
    fn clear(&self) -> Result<(), CacheError>;

    /// The number of entries and the sum of their sizes.
    fn stats(&self) -> Result<CacheStoreStats, CacheError>;
}

/// What a lookup found, before the payload is read.
#[derive(Debug, Clone, Copy, PartialEq, Eq, Structural)]
pub enum Lookup {
    /// The key has no entry.
    Absent,
    /// The entry was expired and has left the index: its payload is to be
    /// deleted and the index persisted.
    Expired,
    /// The entry is live: its payload is to be read.
    Live,
}

/// What storing an entry asks of the disk.
#[derive(Debug)]
pub struct PutPlan {
    /// Whether the entry entered the index: its payload is to be written and
    /// the index persisted.
    pub stored: bool,
    /// Whether an earlier entry of the same key left for it.
    pub replaced: bool,
    /// The keys that left to make room, in the order in which they left:
    /// their payloads are to be deleted.
    pub evicted: Vec<String>,
}

impl PutPlan {
    /// The number of entries that left to make room.
    pub fn outcome(&self) -> (outcome: CacheStorePutOutcome)
        ensures
            outcome.evicted == self.evicted@.len(),
    {
        CacheStorePutOutcome { evicted: self.evicted.len() }
    }
}

/// The disk cache without its disk: the index, the byte budget and where the
/// files lie. Each operation changes the index and says what is to be done
/// to the files.
#[derive(Debug)]
pub struct DiskCacheStore {
    index: CacheIndex,
    index_path: String,
    entries_path: String,
    max_bytes: u64,
}

/// The index after `key` was stored with `size` bytes at `now` under
/// `budget`: an earlier entry of the key leaves, then the entries used least
/// recently until the new bytes fit, and the new entry comes last.
pub open spec fn after_put(slots: Slots, key: Seq<char>, size: u64, ttl_secs: u64, now: u64, budget: u64) -> Slots {
    if budget == 0 || size > budget {
        slots
    } else {
        evict_for(without_key(slots, key), size as int, budget as int).push(
            (
                key,
                CacheIndexEntry {
                    size_bytes: size,
                    inserted_epoch: now,
                    last_access_epoch: now,
                    ttl_secs,
                },
            ),
        )
    }
}

/// Taking an entry out keeps the keys distinct and brings no entry in.
pub proof fn lemma_remove_keeps(slots: Slots, i: int)
    requires
        0 <= i < slots.len(),
    ensures
        distinct_keys(slots) ==> distinct_keys(slots.remove(i)),
        forall|x: (Seq<char>, CacheIndexEntry)| #[trigger]
            slots.remove(i).contains(x) ==> slots.contains(x),
        forall|j: int| 0 <= j < slots.len() && j != i ==> slots.remove(i).contains(#[trigger] slots[j]),
{
    let r = slots.remove(i);
    if distinct_keys(slots) {
        assert forall|a: int, b: int| 0 <= a < b < r.len() implies (#[trigger] r[a]).0 != (
        #[trigger] r[b]).0 by {
            let a0 = if a < i { a } else { a + 1 };
            let b0 = if b < i { b } else { b + 1 };
            assert(r[a] == slots[a0]);
            assert(r[b] == slots[b0]);
        }
    }
    assert forall|x: (Seq<char>, CacheIndexEntry)| #[trigger] r.contains(x) implies slots.contains(
        x,
    ) by {
        let k = choose|k: int| 0 <= k < r.len() && r[k] == x;
        let k0 = if k < i { k } else { k + 1 };
        assert(slots[k0] == x);
    }
    assert forall|j: int| 0 <= j < slots.len() && j != i implies r.contains(#[trigger] slots[j]) by {
        let k = if j < i { j } else { j - 1 };
        assert(r[k] == slots[j]);
    }
}

/// Making room keeps the keys distinct and brings no entry in.
pub proof fn lemma_evict_for_keeps(slots: Slots, size: int, budget: int)
    ensures
        distinct_keys(slots) ==> distinct_keys(evict_for(slots, size, budget)),
        forall|x: (Seq<char>, CacheIndexEntry)| #[trigger]
            evict_for(slots, size, budget).contains(x) ==> slots.contains(x),
    decreases slots.len(),
{
    if slots.len() > 0 && total_size(slots) + size > budget {
        lemma_oldest_exists(slots);
        let i = oldest_index(slots);
        lemma_remove_keeps(slots, i);
        lemma_evict_for_keeps(slots.remove(i), size, budget);
        assert forall|x: (Seq<char>, CacheIndexEntry)| #[trigger]
            evict_for(slots, size, budget).contains(x) implies slots.contains(x) by {
            assert(evict_for(slots.remove(i), size, budget).contains(x));
            assert(slots.remove(i).contains(x));
        }
    }
}

/// A key that an index does not hold has no place in it.
pub proof fn lemma_absent_key(slots: Slots, key: Seq<char>)
    requires
        forall|x: (Seq<char>, CacheIndexEntry)| #[trigger] slots.contains(x) ==> x.0 != key,
    ensures
        !has_key(slots, key),
        entry_of(slots, key) is None,
{
    if has_key(slots, key) {
        let i = choose|i: int| 0 <= i < slots.len() && (#[trigger] slots[i]).0 == key;
        assert(slots.contains(slots[i]));
    }
}

/// Once a key is taken out, the index does not hold it.
pub proof fn lemma_without_key_absent(slots: Slots, key: Seq<char>)
    requires
        distinct_keys(slots),
    ensures
        distinct_keys(without_key(slots, key)),
        forall|x: (Seq<char>, CacheIndexEntry)| #[trigger]
            without_key(slots, key).contains(x) ==> x.0 != key && slots.contains(x),
        forall|j: int|
            0 <= j < slots.len() && (#[trigger] slots[j]).0 != key ==> without_key(
                slots,
                key,
            ).contains(slots[j]),
{
    let w = without_key(slots, key);
    match key_index(slots, key) {
        Some(i) => {
            lemma_remove_keeps(slots, i);
            assert forall|x: (Seq<char>, CacheIndexEntry)| #[trigger] w.contains(x) implies x.0
                != key && slots.contains(x) by {
                let k = choose|k: int| 0 <= k < w.len() && w[k] == x;
                let k0 = if k < i { k } else { k + 1 };
                assert(slots[k0] == x);
                if k0 < i {
                    assert(slots[k0].0 != slots[i].0);
                } else {
                    assert(slots[i].0 != slots[k0].0);
                }
            }
        },
        None => {
            assert forall|x: (Seq<char>, CacheIndexEntry)| #[trigger] w.contains(x) implies x.0
                != key && slots.contains(x) by {
                let k = choose|k: int| 0 <= k < w.len() && w[k] == x;
                assert(slots[k].0 != key);
            }
            assert forall|j: int| 0 <= j < slots.len() && (#[trigger] slots[j]).0
                != key implies w.contains(slots[j]) by {
                assert(w[j] == slots[j]);
            }
        },
    }
}

/// What storing leaves behind: the keys are distinct, the new entry is the
/// one found under its key, and the total is within the budget.
pub proof fn lemma_after_put(slots: Slots, key: Seq<char>, size: u64, ttl_secs: u64, now: u64, budget: u64)
    requires
        distinct_keys(slots),
        budget != 0,
        size <= budget,
    ensures
        distinct_keys(after_put(slots, key, size, ttl_secs, now, budget)),
        entry_of(after_put(slots, key, size, ttl_secs, now, budget), key) == Some(
            CacheIndexEntry {
                size_bytes: size,
                inserted_epoch: now,
                last_access_epoch: now,
                ttl_secs,
            },
        ),
        total_size(after_put(slots, key, size, ttl_secs, now, budget)) <= budget,
{
    let w = without_key(slots, key);
    let room = evict_for(w, size as int, budget as int);
    let entry = CacheIndexEntry {
        size_bytes: size,
        inserted_epoch: now,
        last_access_epoch: now,
        ttl_secs,
    };
    let after = room.push((key, entry));
    lemma_without_key_absent(slots, key);
    lemma_evict_for_keeps(w, size as int, budget as int);
    lemma_evict_for_fits(w, size as int, budget as int);
    lemma_absent_key(room, key);
    lemma_total_size_push(room, (key, entry));
    assert forall|a: int, b: int| 0 <= a < b < after.len() implies (#[trigger] after[a]).0 != (
    #[trigger] after[b]).0 by {
        if b < room.len() {
            assert(room[a].0 != room[b].0);
        } else {
            assert(room.contains(room[a]));
        }
    }
    lemma_key_index_unique(after, key, room.len() as int);
}

/// An entry stored with a time-to-live of zero is expired whenever it is
/// looked up.
pub proof fn lemma_zero_ttl_is_expired(slots: Slots, key: Seq<char>, size: u64, now: u64, budget: u64, later: u64)
    requires
        distinct_keys(slots),
        budget != 0,
        size <= budget,
    ensures
        entry_of(after_put(slots, key, size, 0, now, budget), key) matches Some(entry)
            && entry.spec_is_expired_at(later),
{
    lemma_after_put(slots, key, size, 0, now, budget);
}

/// Under a budget that two values do not fit together, storing the second
/// drives the first out, and the second is there.
pub proof fn lemma_second_put_evicts_first(
    slots: Slots,
    first: Seq<char>,
    first_size: u64,
    first_ttl: u64,
    first_now: u64,
    second: Seq<char>,
    second_size: u64,
    second_ttl: u64,
    second_now: u64,
    budget: u64,
)
    requires
        distinct_keys(slots),
        first != second,
        first_size <= budget,
        second_size <= budget,
        first_size + second_size > budget,
    ensures
        ({
            let between = after_put(slots, first, first_size, first_ttl, first_now, budget);
            let after = after_put(between, second, second_size, second_ttl, second_now, budget);
            &&& entry_of(between, first) is Some
            &&& entry_of(after, first) is None
            &&& entry_of(after, second) == Some(
                CacheIndexEntry {
                    size_bytes: second_size,
                    inserted_epoch: second_now,
                    last_access_epoch: second_now,
                    ttl_secs: second_ttl,
                },
            )
        }),
{
    let between = after_put(slots, first, first_size, first_ttl, first_now, budget);
    let after = after_put(between, second, second_size, second_ttl, second_now, budget);
    lemma_after_put(slots, first, first_size, first_ttl, first_now, budget);
    lemma_after_put(between, second, second_size, second_ttl, second_now, budget);
    let w = without_key(between, second);
    let room = evict_for(w, second_size as int, budget as int);
    lemma_without_key_absent(between, second);
    lemma_evict_for_keeps(w, second_size as int, budget as int);
    lemma_evict_for_fits(w, second_size as int, budget as int);
    assert forall|x: (Seq<char>, CacheIndexEntry)| #[trigger] after.contains(x) implies x.0
        != first by {
        let k = choose|k: int| 0 <= k < after.len() && after[k] == x;
        if k < room.len() {
            assert(room.contains(room[k]));
            assert(between.contains(x));
            if x.0 == first {
                let j = choose|j: int| 0 <= j < between.len() && between[j] == x;
                lemma_key_index_unique(between, first, j);
                lemma_total_size_bounds(room, k);
            }
        }
    }
    lemma_absent_key(after, first);
}

/// A store that was cleared has no entry for any key.
pub proof fn lemma_cleared_index_is_empty(key: Seq<char>)
    ensures
        entry_of(Slots::empty(), key) is None,
        !has_key(Slots::empty(), key),
{
}

/// The index that a file held: the list that was read where it is an
/// index, else nothing.
pub open spec fn loaded_slots(loaded: Option<Vec<IndexSlot>>) -> Slots {
    match loaded {
        Some(slots) => if distinct_keys(slot_views(slots@)) && total_size(slot_views(slots@))
            <= u64::MAX {
            slot_views(slots@)
        } else {
            Slots::empty()
        },
        None => Slots::empty(),
    }
}

impl DiskCacheStore {
    /// The index of the store.
    pub closed spec fn slots(&self) -> Slots {
        self.index@
    }

    /// The byte budget of the store.
    pub closed spec fn spec_max_bytes(&self) -> u64 {
        self.max_bytes
    }

    /// The directory of the payload files.
    pub closed spec fn spec_entries_path(&self) -> Seq<char> {
        self.entries_path@
    }

    /// The file of the index.
    pub closed spec fn spec_index_path(&self) -> Seq<char> {
        self.index_path@
    }

    /// The index is well-formed.
    pub closed spec fn wf(&self) -> bool {
        self.index.wf()
    }

    /// A store below `cache_dir` with the budget `max_bytes`, on an index
    /// that was loaded, pruned and held against the payloads on disk.
    pub fn new(cache_dir: &str, max_bytes: u64, index: CacheIndex) -> (store: DiskCacheStore)
        requires
            index.wf(),
        ensures
            store.wf(),
            store.slots() == index@,
            store.spec_max_bytes() == max_bytes,
            store.spec_entries_path() == cache_dir@ + "/entries"@,
            store.spec_index_path() == cache_dir@ + "/index.json"@,
    {
        let entries_path = String::from_str(cache_dir).concat("/entries");
        let index_path = String::from_str(cache_dir).concat("/index.json");
        DiskCacheStore { index, index_path, entries_path, max_bytes }
    }

    /// A store below `cache_dir` on what the file of the index held, at the
    /// time `now`. Where the file held no index, or a list that is none, the
    /// store starts empty. Entries that are expired at `now` leave, and
    /// their keys come back: their payloads are to be deleted.
    pub fn load(cache_dir: &str, max_bytes: u64, loaded: Option<Vec<IndexSlot>>, now: u64) -> (opened:
        (DiskCacheStore, Vec<String>))
        ensures
            opened.0.wf(),
            opened.0.spec_max_bytes() == max_bytes,
            opened.0.spec_entries_path() == cache_dir@ + "/entries"@,
            opened.0.spec_index_path() == cache_dir@ + "/index.json"@,
            opened.0.slots() == live_slots(loaded_slots(loaded), now),
            opened.1.deep_view() == expired_keys(loaded_slots(loaded), now),
    {
        let mut index = match loaded {
            Some(slots) => match CacheIndex::from_slots(slots) {
                Some(index) => index,
                None => CacheIndex::new(),
            },
            None => CacheIndex::new(),
        };
        let pruned = index.prune_expired(now);
        assert(pruned.deep_view() =~= expired_keys(loaded_slots(loaded), now));
        (DiskCacheStore::new(cache_dir, max_bytes, index), pruned)
    }

    /// Holds the store against the payloads found on disk: `sizes[i]` is the
    /// size of the payload of the `i`-th key, or `None` where it is missing.
    /// Says whether that was done; it is not, and nothing changes, where
    /// `sizes` has not one place for each key or the sizes found add up to
    /// more than a `u64` holds.
    pub fn reconcile(&mut self, sizes: &Vec<Option<u64>>) -> (done: bool)
        requires
            old(self).wf(),
        ensures
            final(self).wf(),
            final(self).spec_max_bytes() == old(self).spec_max_bytes(),
            final(self).spec_entries_path() == old(self).spec_entries_path(),
            final(self).spec_index_path() == old(self).spec_index_path(),
            done == (sizes@.len() == old(self).slots().len() && total_size(
                reconciled(old(self).slots(), sizes@),
            ) <= u64::MAX),
            final(self).slots() == if done {
                reconciled(old(self).slots(), sizes@)
            } else {
                old(self).slots()
            },
    {
        if sizes.len() != self.index.len() {
            return false;
        }
        let ghost slots = self.index@;
        let mut total: u64 = 0;
        let mut i: usize = 0;
        while i < sizes.len()
            invariant
                i <= sizes@.len(),
                sizes@.len() == slots.len(),
                *self == *old(self),
                slots == self.index@,
                self.index.wf(),
                total == total_size(
                    reconciled(slots.subrange(0, i as int), sizes@.subrange(0, i as int)),
                ),
            decreases sizes@.len() - i,
        {
            let ghost rest = reconciled(slots.subrange(0, i as int), sizes@.subrange(0, i as int));
            assert(slots.subrange(0, i + 1).drop_last() == slots.subrange(0, i as int));
            assert(sizes@.subrange(0, i + 1).drop_last() == sizes@.subrange(0, i as int));
            assert(sizes@.subrange(0, i + 1).last() == sizes@[i as int]);
            match sizes[i] {
                Some(size) => {
                    proof {
                        lemma_total_size_push(
                            rest,
                            (
                                slots[i as int].0,
                                CacheIndexEntry { size_bytes: size, ..slots[i as int].1 },
                            ),
                        );
                    }
                    match total.checked_add(size) {
                        Some(sum) => {
                            total = sum;
                        },
                        None => {
                            proof {
                                lemma_reconciled_prefix(slots, sizes@, i + 1);
                            }
                            return false;
                        },
                    }
                },
                None => {},
            }
            i += 1;
        }
        assert(slots.subrange(0, i as int) == slots);
        assert(sizes@.subrange(0, i as int) == sizes@);
        self.index.recalculate_bytes(sizes);
        true
    }

    /// The byte budget.
    pub fn max_bytes(&self) -> (max: u64)
        ensures
            max == self.spec_max_bytes(),
    {
        self.max_bytes
    }

    /// The index, to be persisted.
    pub fn index(&self) -> (index: &CacheIndex)
        ensures
            index@ == self.slots(),
            self.wf() ==> index.wf(),
    {
        &self.index
    }

    /// The file of the index.
    pub fn index_path(&self) -> (path: String)
        ensures
            path@ == self.spec_index_path(),
    {
        self.index_path.clone()
    }

    /// The file that a new index is written to before it replaces the old
    /// one.
    pub fn temp_index_path(&self) -> (path: String)
        ensures
            path@ == self.spec_index_path() + ".tmp"@,
    {
        self.index_path.clone().concat(".tmp")
    }

    /// The directory of the payload files.
    pub fn entries_path(&self) -> (path: String)
        ensures
            path@ == self.spec_entries_path(),
    {
        self.entries_path.clone()
    }

    /// The payload file of `key`.
    pub fn entry_path(&self, key: &str) -> (path: String)
        ensures
            path@ == self.spec_entries_path() + "/"@ + key@,
    {
        self.entries_path.clone().concat("/").concat(key)
    }

    /// The first half of a read. An absent key is a miss. An entry that is
    /// expired at `now` leaves the index, which is a miss too. For a live
    /// entry nothing changes yet: the payload is read next.
    pub fn lookup(&mut self, key: &str, now: u64) -> (found: Lookup)
        requires
            old(self).wf(),
        ensures
            final(self).wf(),
            final(self).spec_max_bytes() == old(self).spec_max_bytes(),
            final(self).spec_entries_path() == old(self).spec_entries_path(),
            final(self).spec_index_path() == old(self).spec_index_path(),
            match entry_of(old(self).slots(), key@) {
                None => found == Lookup::Absent && final(self).slots() == old(self).slots(),
                Some(entry) => if entry.spec_is_expired_at(now) {
                    found == Lookup::Expired && final(self).slots() == without_key(
                        old(self).slots(),
                        key@,
                    )
                } else {
                    found == Lookup::Live && final(self).slots() == old(self).slots()
                },
            },
    {
        match self.index.lookup(key) {
            None => Lookup::Absent,
            Some(entry) => {
                if entry.is_expired_at(now) {
                    self.index.remove_entry(key);
                    Lookup::Expired
                } else {
                    Lookup::Live
                }
            },
        }
    }

    /// The second half of a read of a live entry, with what the disk gave.
    /// A missing payload is a miss, and the entry leaves the index. A
    /// payload is a hit: the entry is marked as read at `now` and comes back
    /// with its time-to-live.
    pub fn complete_get(&mut self, key: &str, payload: Option<Vec<u8>>, now: u64) -> (hit: Option<
        CacheEntry,
    >)
        requires
            old(self).wf(),
        ensures
            final(self).wf(),
            final(self).spec_max_bytes() == old(self).spec_max_bytes(),
            final(self).spec_entries_path() == old(self).spec_entries_path(),
            final(self).spec_index_path() == old(self).spec_index_path(),
            match (payload, key_index(old(self).slots(), key@)) {
                (Some(value), Some(i)) => {
                    &&& hit matches Some(entry)
                    &&& entry.key@ == key@
                    &&& entry.value@ == value@
                    &&& entry.ttl_secs == old(self).slots()[i].1.ttl_secs
                    &&& final(self).slots() == touched(old(self).slots(), i, now)
                },
                (Some(_), None) => hit is None && final(self).slots() == old(self).slots(),
                (None, _) => hit is None && final(self).slots() == without_key(
                    old(self).slots(),
                    key@,
                ),
            },
    {
        match payload {
            None => {
                self.index.remove_entry(key);
                None
            },
            Some(value) => {
                match self.index.lookup(key) {
                    None => None,
                    Some(entry) => {
                        self.index.touch(key, now);
                        Some(CacheEntry { key: String::from_str(key), value, ttl_secs: entry.ttl_secs })
                    },
                }
            },
        }
    }

    /// Takes the entry of `key` out. Says whether there was one: then its
    /// payload is to be deleted.
    pub fn remove(&mut self, key: &str) -> (removed: bool)
        requires
            old(self).wf(),
        ensures
            final(self).wf(),
            final(self).spec_max_bytes() == old(self).spec_max_bytes(),
            final(self).spec_entries_path() == old(self).spec_entries_path(),
            final(self).spec_index_path() == old(self).spec_index_path(),
            removed == has_key(old(self).slots(), key@),
            final(self).slots() == without_key(old(self).slots(), key@),
            !has_key(final(self).slots(), key@),
    {
        self.index.remove_entry(key)
    }

    /// Empties the store and hands back the keys whose payloads are to be
    /// deleted.
    pub fn clear(&mut self) -> (keys: Vec<String>)
        ensures
            final(self).wf(),
            final(self).spec_max_bytes() == old(self).spec_max_bytes(),
            final(self).spec_entries_path() == old(self).spec_entries_path(),
            final(self).spec_index_path() == old(self).spec_index_path(),
            final(self).slots() == Slots::empty(),
            keys.len() == old(self).slots().len(),
            forall|i: int| 0 <= i < keys.len() ==> (#[trigger] keys[i])@ == old(self).slots()[i].0,
    {
        self.index.clear()
    }

    /// Stores `entry` at `now`. With a budget of zero, or a value larger
    /// than the budget, nothing happens. Else an earlier entry of the key
    /// leaves, then the entries used least recently until the value fits,
    /// and the entry enters the index behind all others.
    pub fn put(&mut self, entry: &CacheEntry, now: u64) -> (plan: PutPlan)
        requires
            old(self).wf(),
        ensures
            final(self).wf(),
            final(self).spec_max_bytes() == old(self).spec_max_bytes(),
            final(self).spec_entries_path() == old(self).spec_entries_path(),
            final(self).spec_index_path() == old(self).spec_index_path(),
            final(self).slots() == after_put(
                old(self).slots(),
                entry.key@,
                entry.value@.len() as u64,
                entry.ttl_secs,
                now,
                old(self).spec_max_bytes(),
            ),
            plan.stored == (old(self).spec_max_bytes() != 0 && entry.value@.len() <= old(
                self,
            ).spec_max_bytes()),
            plan.replaced == (plan.stored && has_key(old(self).slots(), entry.key@)),
            plan.evicted.deep_view() == if plan.stored {
                evicted_keys(
                    without_key(old(self).slots(), entry.key@),
                    entry.value@.len() as int,
                    old(self).spec_max_bytes() as int,
                )
            } else {
                Seq::empty()
            },
            plan.stored ==> total_size(final(self).slots()) <= old(self).spec_max_bytes(),
    {
        let size: u64 = entry.value.len() as u64;
        let mut evicted: Vec<String> = Vec::new();
        if self.max_bytes == 0 || size > self.max_bytes {
            assert(evicted.deep_view() == Seq::<Seq<char>>::empty());
            return PutPlan { stored: false, replaced: false, evicted };
        }
        let replaced = self.index.remove_entry(entry.key.as_str());
        let ghost start = self.index@;
        let ghost budget = self.max_bytes as int;
        assert(evicted.deep_view() == Seq::<Seq<char>>::empty());
        while self.index.len() > 0 && self.index.total_bytes() > self.max_bytes - size
            invariant
                self.index.wf(),
                self.max_bytes == budget,
                size <= self.max_bytes,
                self.index_path == old(self).index_path,
                self.entries_path == old(self).entries_path,
                !has_key(self.index@, entry.key@),
                evict_for(self.index@, size as int, budget) == evict_for(start, size as int, budget),
                evicted.deep_view() + evicted_keys(self.index@, size as int, budget)
                    == evicted_keys(start, size as int, budget),
            decreases self.index@.len(),
        {
            let ghost before = self.index@;
            let ghost gone = evicted.deep_view();
            match self.index.oldest_entry() {
                Some(oldest) => {
                    let ghost i = choose|i: int|
                        is_oldest(before, i) && oldest.0@ == before[i].0 && oldest.1 == before[i].1;
                    proof {
                        lemma_oldest_unique(before, i);
                        lemma_key_index_unique(before, oldest.0@, i);
                    }
                    self.index.remove_entry(oldest.0.as_str());
                    evicted.push(oldest.0);
                    proof {
                        assert(evicted.deep_view() == gone.push(before[i].0));
                        assert(gone.push(before[i].0) + evicted_keys(
                            before.remove(i),
                            size as int,
                            budget,
                        ) == gone + (seq![before[i].0] + evicted_keys(
                            before.remove(i),
                            size as int,
                            budget,
                        )));
                        assert(!has_key(self.index@, entry.key@)) by {
                            if has_key(self.index@, entry.key@) {
                                let j = choose|j: int|
                                    0 <= j < self.index@.len() && (#[trigger] self.index@[j]).0
                                        == entry.key@;
                                if j < i {
                                    assert(before[j].0 == entry.key@);
                                } else {
                                    assert(before[j + 1].0 == entry.key@);
                                }
                            }
                        }
                    }
                },
                None => {},
            }
        }
        proof {
            lemma_evict_for_fits(start, size as int, budget);
            assert(evict_for(self.index@, size as int, budget) == self.index@);
            assert(evicted_keys(self.index@, size as int, budget) == Seq::<Seq<char>>::empty());
            if self.index@.len() == 0 {
                assert(total_size(self.index@) == 0);
            }
        }
        self.index.insert(
            entry.key.clone(),
            CacheIndexEntry {
                size_bytes: size,
                inserted_epoch: now,
                last_access_epoch: now,
                ttl_secs: entry.ttl_secs,
            },
        );
        proof {
            lemma_total_size_push(
                evict_for(start, size as int, budget),
                (
                    entry.key@,
                    CacheIndexEntry {
                        size_bytes: size,
                        inserted_epoch: now,
                        last_access_epoch: now,
                        ttl_secs: entry.ttl_secs,
                    },
                ),
            );
        }
        PutPlan { stored: true, replaced, evicted }
    }

    /// The number of entries and the sum of their sizes.
    pub fn stats(&self) -> (stats: CacheStoreStats)
        requires
            self.wf(),
        ensures
            stats.entries == self.slots().len(),
            stats.total_bytes == total_size(self.slots()),
    {
        CacheStoreStats { entries: self.index.len(), total_bytes: self.index.total_bytes() }
    }
}

} // verus!
