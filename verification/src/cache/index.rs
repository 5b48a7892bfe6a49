//! The index of the disk cache: which keys are stored, how large and how
//! old they are, and which of them leave to make room.
use vstd::prelude::*;
use crate::text::str_eq;

verus! {

/// Metadata kept for one key.
#[derive(Debug, Clone, Copy, PartialEq, Eq, Structural)]
pub struct CacheIndexEntry {
    pub size_bytes: u64,
    pub inserted_epoch: u64,
    pub last_access_epoch: u64,
    pub ttl_secs: u64,
}

impl CacheIndexEntry {
    /// An entry with a time-to-live of zero is expired at once; any other is
    /// expired once its age exceeds its time-to-live. A clock that reads
    /// earlier than the insertion gives the age zero.
    pub open spec fn spec_is_expired_at(&self, now: u64) -> bool {
        self.ttl_secs == 0 || (now > self.inserted_epoch && now - self.inserted_epoch
            > self.ttl_secs)
    }

    /// Whether the entry is expired by the system clock.
    pub fn is_expired(&self) -> (expired: bool)
        ensures
            self.ttl_secs == 0 ==> expired,
            exists|now: u64| expired == self.spec_is_expired_at(now),
    {
        let now = now_epoch_secs();
        let expired = self.is_expired_at(now);
        assert(expired == self.spec_is_expired_at(now));
        expired
    }

    /// Whether the entry is expired when the clock reads `now`.
    #[verifier::when_used_as_spec(spec_is_expired_at)]
    pub fn is_expired_at(&self, now: u64) -> (expired: bool)
        ensures
            expired == self.spec_is_expired_at(now),
    {
        if self.ttl_secs == 0 {
            return true;
        }
        now.saturating_sub(self.inserted_epoch) > self.ttl_secs
    }
}

/// Seconds since the Unix epoch by the system clock, through
/// `std::time::SystemTime::now`; zero where the clock reads earlier than the
/// epoch. Nothing is claimed of the value.
#[verifier::external_body]
pub(crate) fn now_epoch_secs() -> u64 {
    std::time::SystemTime::now().duration_since(std::time::UNIX_EPOCH).unwrap_or_default().as_secs()
}

/// One key of the index with its metadata.
#[derive(Debug, Clone)]
pub struct IndexSlot {
    pub key: String,
    pub entry: CacheIndexEntry,
}

/// The index as contracts see it: keys with their metadata, in the order in
/// which they were stored.
pub type Slots = Seq<(Seq<char>, CacheIndexEntry)>;

/// The views of `slots`.
pub open spec fn slot_views(slots: Seq<IndexSlot>) -> Slots {
    Seq::new(slots.len(), |i: int| (slots[i].key@, slots[i].entry))
}

/// Whether `key` is one of the keys of `slots`.
pub open spec fn has_key(slots: Slots, key: Seq<char>) -> bool {
    exists|i: int| 0 <= i < slots.len() && (#[trigger] slots[i]).0 == key
}

/// No key occurs twice.
pub open spec fn distinct_keys(slots: Slots) -> bool {
    forall|i: int, j: int|
        0 <= i < j < slots.len() ==> (#[trigger] slots[i]).0 != (#[trigger] slots[j]).0
}

/// Where `key` stands in `slots`, if it is there.
pub open spec fn key_index(slots: Slots, key: Seq<char>) -> Option<int> {
    if has_key(slots, key) {
        Some(choose|i: int| 0 <= i < slots.len() && (#[trigger] slots[i]).0 == key)
    } else {
        None
    }
}

/// The metadata stored under `key`, if any.
pub open spec fn entry_of(slots: Slots, key: Seq<char>) -> Option<CacheIndexEntry> {
    match key_index(slots, key) {
        Some(i) => Some(slots[i].1),
        None => None,
    }
}

/// `slots` with `key` taken out.
pub open spec fn without_key(slots: Slots, key: Seq<char>) -> Slots {
    match key_index(slots, key) {
        Some(i) => slots.remove(i),
        None => slots,
    }
}

/// The sum of the sizes of all entries.
pub open spec fn total_size(slots: Slots) -> int
    decreases slots.len(),
{
    if slots.len() == 0 {
        0
    } else {
        total_size(slots.drop_last()) + slots.last().1.size_bytes
    }
}

/// With distinct keys, a key stands at one place only.
pub proof fn lemma_key_index_unique(slots: Slots, key: Seq<char>, i: int)
    requires
        distinct_keys(slots),
        0 <= i < slots.len(),
        slots[i].0 == key,
    ensures
        key_index(slots, key) == Some(i),
        entry_of(slots, key) == Some(slots[i].1),
        without_key(slots, key) == slots.remove(i),
{
    let j = choose|j: int| 0 <= j < slots.len() && (#[trigger] slots[j]).0 == key;
    assert(i == j) by {
        if i < j {
            assert(slots[i].0 != slots[j].0);
        }
        if j < i {
            assert(slots[j].0 != slots[i].0);
        }
    }
}

/// Taking one entry out lowers the total by its size.
pub proof fn lemma_total_size_remove(slots: Slots, i: int)
    requires
        0 <= i < slots.len(),
    ensures
        total_size(slots.remove(i)) == total_size(slots) - slots[i].1.size_bytes,
    decreases slots.len(),
{
    if i == slots.len() - 1 {
        assert(slots.remove(i) == slots.drop_last());
    } else {
        lemma_total_size_remove(slots.drop_last(), i);
        assert(slots.remove(i).drop_last() == slots.drop_last().remove(i));
        assert(slots.remove(i).last() == slots.last());
    }
}

/// Adding one entry at the end raises the total by its size.
pub proof fn lemma_total_size_push(slots: Slots, slot: (Seq<char>, CacheIndexEntry))
    ensures
        total_size(slots.push(slot)) == total_size(slots) + slot.1.size_bytes,
{
    assert(slots.push(slot).drop_last() == slots);
}

/// No entry is larger than the total.
pub proof fn lemma_total_size_bounds(slots: Slots, i: int)
    requires
        0 <= i < slots.len(),
    ensures
        0 <= slots[i].1.size_bytes <= total_size(slots),
    decreases slots.len(),
{
    lemma_total_size_nonnegative(slots.drop_last());
    if i < slots.len() - 1 {
        lemma_total_size_bounds(slots.drop_last(), i);
    }
}

/// The total is never negative.
pub proof fn lemma_total_size_nonnegative(slots: Slots)
    ensures
        0 <= total_size(slots),
    decreases slots.len(),
{
    if slots.len() > 0 {
        lemma_total_size_nonnegative(slots.drop_last());
    }
}

/// Whether `i` is the place of the entry that was used least recently: the
/// first of those with the smallest `last_access_epoch`.
pub open spec fn is_oldest(slots: Slots, i: int) -> bool {
    &&& 0 <= i < slots.len()
    &&& forall|j: int|
        0 <= j < slots.len() ==> slots[i].1.last_access_epoch <= (#[trigger] slots[j]).1.last_access_epoch
    &&& forall|j: int|
        0 <= j < i ==> slots[i].1.last_access_epoch < (#[trigger] slots[j]).1.last_access_epoch
}

/// `slots` with the entry at `i` marked as read at `now`.
pub open spec fn touched(slots: Slots, i: int, now: u64) -> Slots {
    slots.update(i, (slots[i].0, CacheIndexEntry { last_access_epoch: now, ..slots[i].1 }))
}

/// Marking an entry as read leaves the total as it is.
pub proof fn lemma_total_size_touched(slots: Slots, i: int, now: u64)
    requires
        0 <= i < slots.len(),
    ensures
        total_size(touched(slots, i, now)) == total_size(slots),
    decreases slots.len(),
{
    let t = touched(slots, i, now);
    if i == slots.len() - 1 {
        assert(t.drop_last() == slots.drop_last());
    } else {
        lemma_total_size_touched(slots.drop_last(), i, now);
        assert(t.drop_last() == touched(slots.drop_last(), i, now));
    }
}

/// The entries of `slots` that are not expired at `now`, in their order.
pub open spec fn live_slots(slots: Slots, now: u64) -> Slots
    decreases slots.len(),
{
    if slots.len() == 0 {
        Slots::empty()
    } else {
        let rest = live_slots(slots.drop_last(), now);
        if slots.last().1.spec_is_expired_at(now) {
            rest
        } else {
            rest.push(slots.last())
        }
    }
}

/// The keys of the entries of `slots` that are expired at `now`, in their
/// order.
pub open spec fn expired_keys(slots: Slots, now: u64) -> Seq<Seq<char>>
    decreases slots.len(),
{
    if slots.len() == 0 {
        Seq::empty()
    } else {
        let rest = expired_keys(slots.drop_last(), now);
        if slots.last().1.spec_is_expired_at(now) {
            rest.push(slots.last().0)
        } else {
            rest
        }
    }
}

/// `sub` holds keys of `full` only, in the order of `full`: the key at `k`
/// is the key that `full` has at `places[k]`, and `places` rises.
pub open spec fn keys_selected(sub: Slots, full: Slots, places: Seq<int>) -> bool {
    &&& places.len() == sub.len()
    &&& forall|k: int|
        0 <= k < sub.len() ==> 0 <= (#[trigger] places[k]) < full.len() && sub[k].0
            == full[places[k]].0
    &&& forall|k: int, l: int| 0 <= k < l < sub.len() ==> (#[trigger] places[k]) < (#[trigger] places[l])
}

/// A selection of distinct keys has distinct keys.
pub proof fn lemma_selection_distinct(sub: Slots, full: Slots, places: Seq<int>)
    requires
        distinct_keys(full),
        keys_selected(sub, full, places),
    ensures
        distinct_keys(sub),
{
    assert forall|i: int, j: int| 0 <= i < j < sub.len() implies (#[trigger] sub[i]).0 != (
    #[trigger] sub[j]).0 by {
        assert(places[i] < places[j]);
        assert(full[places[i]].0 != full[places[j]].0);
    }
}

/// The first entries of an index are no larger than all of them.
pub proof fn lemma_total_size_prefix(slots: Slots, n: int)
    requires
        0 <= n <= slots.len(),
    ensures
        0 <= total_size(slots.subrange(0, n)) <= total_size(slots),
    decreases slots.len() - n,
{
    lemma_total_size_nonnegative(slots.subrange(0, n));
    if n == slots.len() {
        assert(slots.subrange(0, n) == slots);
    } else {
        lemma_total_size_prefix(slots, n + 1);
        assert(slots.subrange(0, n + 1).drop_last() == slots.subrange(0, n));
    }
}

/// `slots` held against the payloads found on disk: `sizes[i]` is the size
/// of the payload of the entry at `i`, or `None` where it is missing. An
/// entry without payload leaves; every other takes the size found.
pub open spec fn reconciled(slots: Slots, sizes: Seq<Option<u64>>) -> Slots
    decreases slots.len(),
{
    if slots.len() == 0 || sizes.len() != slots.len() {
        Slots::empty()
    } else {
        let rest = reconciled(slots.drop_last(), sizes.drop_last());
        match sizes.last() {
            Some(size) => rest.push(
                (slots.last().0, CacheIndexEntry { size_bytes: size, ..slots.last().1 }),
            ),
            None => rest,
        }
    }
}

/// The payloads of the first entries are no larger than those of all.
pub proof fn lemma_reconciled_prefix(slots: Slots, sizes: Seq<Option<u64>>, n: int)
    requires
        sizes.len() == slots.len(),
        0 <= n <= slots.len(),
    ensures
        total_size(reconciled(slots.subrange(0, n), sizes.subrange(0, n))) <= total_size(
            reconciled(slots, sizes),
        ),
    decreases slots.len() - n,
{
    if n == slots.len() {
        assert(slots.subrange(0, n) == slots);
        assert(sizes.subrange(0, n) == sizes);
    } else {
        lemma_reconciled_prefix(slots, sizes, n + 1);
        assert(slots.subrange(0, n + 1).drop_last() == slots.subrange(0, n));
        assert(sizes.subrange(0, n + 1).drop_last() == sizes.subrange(0, n));
        let rest = reconciled(slots.subrange(0, n), sizes.subrange(0, n));
        match sizes[n] {
            Some(size) => {
                lemma_total_size_push(
                    rest,
                    (slots[n].0, CacheIndexEntry { size_bytes: size, ..slots[n].1 }),
                );
            },
            None => {},
        }
    }
}

/// The place of the entry that was used least recently.
pub open spec fn oldest_index(slots: Slots) -> int {
    choose|i: int| is_oldest(slots, i)
}

/// An index that is not empty has an oldest entry.
pub proof fn lemma_oldest_exists(slots: Slots)
    requires
        slots.len() > 0,
    ensures
        is_oldest(slots, oldest_index(slots)),
    decreases slots.len(),
{
    if slots.len() == 1 {
        assert(is_oldest(slots, 0));
    } else {
        let head = slots.drop_last();
        lemma_oldest_exists(head);
        let i = oldest_index(head);
        let last = slots.len() - 1;
        if slots[last].1.last_access_epoch < head[i].1.last_access_epoch {
            assert forall|j: int| 0 <= j < slots.len() implies slots[last].1.last_access_epoch <= (
            #[trigger] slots[j]).1.last_access_epoch by {
                if j < last {
                    assert(head[j] == slots[j]);
                }
            }
            assert forall|j: int| 0 <= j < last implies slots[last].1.last_access_epoch < (
            #[trigger] slots[j]).1.last_access_epoch by {
                assert(head[j] == slots[j]);
            }
            assert(is_oldest(slots, last));
        } else {
            assert forall|j: int| 0 <= j < slots.len() implies slots[i].1.last_access_epoch <= (
            #[trigger] slots[j]).1.last_access_epoch by {
                if j < last {
                    assert(head[j] == slots[j]);
                }
            }
            assert forall|j: int| 0 <= j < i implies slots[i].1.last_access_epoch < (
            #[trigger] slots[j]).1.last_access_epoch by {
                assert(head[j] == slots[j]);
            }
            assert(is_oldest(slots, i));
        }
    }
}

/// An index has at most one oldest entry.
pub proof fn lemma_oldest_unique(slots: Slots, i: int)
    requires
        is_oldest(slots, i),
    ensures
        oldest_index(slots) == i,
{
    let j = oldest_index(slots);
    assert(is_oldest(slots, j));
    if i < j {
        assert(slots[j].1.last_access_epoch < slots[i].1.last_access_epoch);
        assert(slots[i].1.last_access_epoch <= slots[j].1.last_access_epoch);
    }
    if j < i {
        assert(slots[i].1.last_access_epoch < slots[j].1.last_access_epoch);
        assert(slots[j].1.last_access_epoch <= slots[i].1.last_access_epoch);
    }
}

/// `slots` after making room for `size` more bytes under `budget`: while the
/// total with the new bytes is over the budget and an entry is left, the one
/// used least recently leaves.
pub open spec fn evict_for(slots: Slots, size: int, budget: int) -> Slots
    decreases slots.len(),
{
    if slots.len() > 0 && total_size(slots) + size > budget {
        proof {
            lemma_oldest_exists(slots);
        }
        evict_for(slots.remove(oldest_index(slots)), size, budget)
    } else {
        slots
    }
}

/// The keys that leave when room is made for `size` more bytes under
/// `budget`, in the order in which they leave.
pub open spec fn evicted_keys(slots: Slots, size: int, budget: int) -> Seq<Seq<char>>
    decreases slots.len(),
{
    if slots.len() > 0 && total_size(slots) + size > budget {
        proof {
            lemma_oldest_exists(slots);
        }
        seq![slots[oldest_index(slots)].0] + evicted_keys(
            slots.remove(oldest_index(slots)),
            size,
            budget,
        )
    } else {
        Seq::empty()
    }
}

/// After making room, the new bytes fit, provided they fit the budget alone.
pub proof fn lemma_evict_for_fits(slots: Slots, size: int, budget: int)
    requires
        0 <= size <= budget,
    ensures
        total_size(evict_for(slots, size, budget)) + size <= budget,
        evict_for(slots, size, budget).len() + evicted_keys(slots, size, budget).len()
            == slots.len(),
    decreases slots.len(),
{
    if slots.len() > 0 && total_size(slots) + size > budget {
        lemma_oldest_exists(slots);
        lemma_evict_for_fits(slots.remove(oldest_index(slots)), size, budget);
    } else if slots.len() == 0 {
        assert(total_size(slots) == 0);
    }
}

/// The metadata of the whole store: one slot per key and the sum of their
/// sizes.
#[derive(Debug)]
pub struct CacheIndex {
    entries: Vec<IndexSlot>,
    total_bytes: u64,
}

impl View for CacheIndex {
    type V = Slots;

    closed spec fn view(&self) -> Slots {
        Seq::new(self.entries@.len(), |i: int| (self.entries@[i].key@, self.entries@[i].entry))
    }
}

impl CacheIndex {
    /// The tracked total of the entries' sizes.
    pub closed spec fn spec_total_bytes(&self) -> u64 {
        self.total_bytes
    }

    /// No key occurs twice, and the tracked total is the sum of the sizes.
    pub open spec fn wf(&self) -> bool {
        &&& distinct_keys(self@)
        &&& self.spec_total_bytes() == total_size(self@)
    }

    /// An index without entries.
    pub fn new() -> (index: CacheIndex)
        ensures
            index.wf(),
            index@ == Slots::empty(),
            index.spec_total_bytes() == 0,
    {
        CacheIndex { entries: Vec::new(), total_bytes: 0 }
    }

    /// The index that holds `slots`, in their order. There is none where a
    /// key occurs twice or where the sizes add up to more than a `u64`
    /// holds: such a list is no index.
    pub fn from_slots(slots: Vec<IndexSlot>) -> (index: Option<CacheIndex>)
        ensures
            index is Some <==> distinct_keys(slot_views(slots@)) && total_size(slot_views(slots@))
                <= u64::MAX,
            index matches Some(built) ==> built.wf() && built@ == slot_views(slots@),
    {
        let ghost all = slot_views(slots@);
        let mut total: u64 = 0;
        let mut i: usize = 0;
        while i < slots.len()
            invariant
                i <= slots@.len(),
                all == slot_views(slots@),
                distinct_keys(all.subrange(0, i as int)),
                total == total_size(all.subrange(0, i as int)),
            decreases slots@.len() - i,
        {
            let ghost prefix = all.subrange(0, i as int);
            let ghost next = all.subrange(0, i + 1);
            assert(next.drop_last() == prefix);
            assert(next.last() == all[i as int]);
            let mut j: usize = 0;
            while j < i
                invariant
                    j <= i < slots@.len(),
                    all == slot_views(slots@),
                    forall|k: int| 0 <= k < j ==> (#[trigger] all[k]).0 != all[i as int].0,
                decreases i - j,
            {
                if str_eq(slots[j].key.as_str(), slots[i].key.as_str()) {
                    assert(all[j as int].0 == all[i as int].0);
                    return None;
                }
                j += 1;
            }
            assert(distinct_keys(next)) by {
                assert forall|a: int, b: int| 0 <= a < b < next.len() implies (#[trigger] next[a]).0 != (
                #[trigger] next[b]).0 by {
                    if b < i {
                        assert(prefix[a].0 != prefix[b].0);
                    } else {
                        assert(all[a].0 != all[i as int].0);
                    }
                }
            }
            match total.checked_add(slots[i].entry.size_bytes) {
                Some(sum) => {
                    total = sum;
                },
                None => {
                    proof {
                        lemma_total_size_prefix(all, i + 1);
                    }
                    return None;
                },
            }
            i += 1;
        }
        assert(all.subrange(0, i as int) == all);
        let index = CacheIndex { entries: slots, total_bytes: total };
        assert(index@ == all);
        Some(index)
    }

    /// The slots of the index, in order.
    pub fn to_slots(&self) -> (slots: Vec<IndexSlot>)
        ensures
            slot_views(slots@) == self@,
    {
        let mut slots: Vec<IndexSlot> = Vec::new();
        let mut i: usize = 0;
        while i < self.entries.len()
            invariant
                i <= self.entries@.len(),
                slot_views(slots@) == self@.subrange(0, i as int),
            decreases self.entries@.len() - i,
        {
            let slot = &self.entries[i];
            slots.push(IndexSlot { key: slot.key.clone(), entry: slot.entry });
            assert(slot_views(slots@) == self@.subrange(0, i as int).push(self@[i as int]));
            assert(self@.subrange(0, i + 1) == self@.subrange(0, i as int).push(self@[i as int]));
            i += 1;
        }
        assert(self@.subrange(0, i as int) == self@);
        slots
    }

    /// The number of entries.
    pub fn len(&self) -> (n: usize)
        ensures
            n == self@.len(),
    {
        self.entries.len()
    }

    /// The tracked total of the entries' sizes.
    #[verifier::when_used_as_spec(spec_total_bytes)]
    pub fn total_bytes(&self) -> (total: u64)
        ensures
            total == self.spec_total_bytes(),
    {
        self.total_bytes
    }

    /// Where `key` stands among the entries.
    fn position(&self, key: &str) -> (found: Option<usize>)
        ensures
            match found {
                Some(i) => i < self@.len() && self@[i as int].0 == key@,
                None => !has_key(self@, key@),
            },
    {
        let mut i: usize = 0;
        while i < self.entries.len()
            invariant
                i <= self.entries@.len(),
                forall|j: int| 0 <= j < i ==> (#[trigger] self@[j]).0 != key@,
            decreases self.entries@.len() - i,
        {
            if str_eq(self.entries[i].key.as_str(), key) {
                return Some(i);
            }
            i += 1;
        }
        None
    }

    /// Whether `key` has an entry.
    pub fn contains_key(&self, key: &str) -> (present: bool)
        ensures
            present == has_key(self@, key@),
    {
        self.position(key).is_some()
    }

    /// The metadata stored under `key`.
    pub fn lookup(&self, key: &str) -> (found: Option<CacheIndexEntry>)
        requires
            self.wf(),
        ensures
            found == entry_of(self@, key@),
    {
        match self.position(key) {
            Some(i) => {
                proof {
                    lemma_key_index_unique(self@, key@, i as int);
                }
                Some(self.entries[i].entry)
            },
            None => None,
        }
    }

    /// Takes the entry of `key` out of the index and lowers the total by its
    /// size. Says whether there was one.
    pub fn remove_entry(&mut self, key: &str) -> (removed: bool)
        requires
            old(self).wf(),
        ensures
            final(self).wf(),
            removed == has_key(old(self)@, key@),
            final(self)@ == without_key(old(self)@, key@),
            !has_key(final(self)@, key@),
    {
        match self.position(key) {
            Some(i) => {
                proof {
                    lemma_key_index_unique(self@, key@, i as int);
                    lemma_total_size_remove(self@, i as int);
                    lemma_total_size_bounds(self@, i as int);
                }
                let ghost before = self@;
                let slot = self.entries.remove(i);
                self.total_bytes = self.total_bytes - slot.entry.size_bytes;
                assert(self@ == before.remove(i as int));
                assert(!has_key(self@, key@)) by {
                    if has_key(self@, key@) {
                        let j = choose|j: int| 0 <= j < self@.len() && (#[trigger] self@[j]).0 == key@;
                        if j < i {
                            assert(before[j].0 != before[i as int].0);
                        } else {
                            assert(before[i as int].0 != before[j + 1].0);
                        }
                    }
                }
                true
            },
            None => false,
        }
    }

    /// Empties the index and hands back the keys it held, in order.
    pub fn clear(&mut self) -> (keys: Vec<String>)
        ensures
            final(self).wf(),
            final(self)@ == Slots::empty(),
            final(self).spec_total_bytes() == 0,
            keys.len() == old(self)@.len(),
            forall|i: int| 0 <= i < keys.len() ==> (#[trigger] keys[i])@ == old(self)@[i].0,
    {
        let mut keys: Vec<String> = Vec::new();
        let mut i: usize = 0;
        while i < self.entries.len()
            invariant
                self.entries == old(self).entries,
                i <= self.entries@.len(),
                keys.len() == i,
                forall|j: int| 0 <= j < i ==> (#[trigger] keys[j])@ == self@[j].0,
            decreases self.entries@.len() - i,
        {
            keys.push(self.entries[i].key.clone());
            i += 1;
        }
        self.entries = Vec::new();
        self.total_bytes = 0;
        keys
    }

    /// The entry that was used least recently, with its key. Among entries
    /// of the same age the one stored first is taken.
    pub fn oldest_entry(&self) -> (oldest: Option<(String, CacheIndexEntry)>)
        ensures
            oldest is None <==> self@.len() == 0,
            oldest matches Some(found) ==> exists|i: int|
                is_oldest(self@, i) && found.0@ == self@[i].0 && found.1 == self@[i].1,
    {
        if self.entries.len() == 0 {
            return None;
        }
        let mut best: usize = 0;
        let mut i: usize = 1;
        while i < self.entries.len()
            invariant
                1 <= i <= self.entries@.len(),
                best < i,
                forall|j: int|
                    0 <= j < i ==> self@[best as int].1.last_access_epoch <= (
                    #[trigger] self@[j]).1.last_access_epoch,
                forall|j: int|
                    0 <= j < best ==> self@[best as int].1.last_access_epoch < (
                    #[trigger] self@[j]).1.last_access_epoch,
            decreases self.entries@.len() - i,
        {
            if self.entries[i].entry.last_access_epoch
                < self.entries[best].entry.last_access_epoch {
                best = i;
            }
            i += 1;
        }
        assert(is_oldest(self@, best as int));
        Some((self.entries[best].key.clone(), self.entries[best].entry))
    }

    /// Stores `entry` under `key`, which has no entry yet, behind all others.
    pub fn insert(&mut self, key: String, entry: CacheIndexEntry)
        requires
            old(self).wf(),
            !has_key(old(self)@, key@),
            old(self).spec_total_bytes() + entry.size_bytes <= u64::MAX,
        ensures
            final(self).wf(),
            final(self)@ == old(self)@.push((key@, entry)),
            entry_of(final(self)@, key@) == Some(entry),
    {
        let ghost before = self@;
        proof {
            lemma_total_size_push(before, (key@, entry));
        }
        self.total_bytes = self.total_bytes + entry.size_bytes;
        self.entries.push(IndexSlot { key, entry });
        assert(self@ == before.push((key@, entry)));
        proof {
            lemma_key_index_unique(self@, key@, before.len() as int);
        }
    }

    /// Marks the entry of `key` as read at `now`. Says whether there is one.
    pub fn touch(&mut self, key: &str, now: u64) -> (present: bool)
        requires
            old(self).wf(),
        ensures
            final(self).wf(),
            present == has_key(old(self)@, key@),
            match key_index(old(self)@, key@) {
                Some(i) => final(self)@ == touched(old(self)@, i, now),
                None => final(self)@ == old(self)@,
            },
    {
        match self.position(key) {
            Some(i) => {
                let ghost before = self@;
                proof {
                    lemma_key_index_unique(before, key@, i as int);
                    lemma_total_size_touched(before, i as int, now);
                }
                let slot = &self.entries[i];
                let updated = IndexSlot {
                    key: slot.key.clone(),
                    entry: CacheIndexEntry { last_access_epoch: now, ..slot.entry },
                };
                self.entries.set(i, updated);
                assert(self@ == touched(before, i as int, now));
                true
            },
            None => false,
        }
    }

    /// The keys of the index, in order.
    pub fn keys(&self) -> (keys: Vec<String>)
        ensures
            keys.len() == self@.len(),
            forall|i: int| 0 <= i < keys.len() ==> (#[trigger] keys[i])@ == self@[i].0,
    {
        let mut keys: Vec<String> = Vec::new();
        let mut i: usize = 0;
        while i < self.entries.len()
            invariant
                i <= self.entries@.len(),
                keys.len() == i,
                forall|j: int| 0 <= j < i ==> (#[trigger] keys[j])@ == self@[j].0,
            decreases self.entries@.len() - i,
        {
            keys.push(self.entries[i].key.clone());
            i += 1;
        }
        keys
    }

    /// Takes out every entry that is expired at `now` and hands back their
    /// keys, in order.
    pub fn prune_expired(&mut self, now: u64) -> (pruned: Vec<String>)
        requires
            old(self).wf(),
        ensures
            final(self).wf(),
            final(self)@ == live_slots(old(self)@, now),
            pruned.len() == expired_keys(old(self)@, now).len(),
            forall|i: int|
                0 <= i < pruned.len() ==> (#[trigger] pruned[i])@ == expired_keys(old(self)@, now)[i],
    {
        let ghost before = self@;
        let ghost mut places: Seq<int> = Seq::empty();
        let mut kept: Vec<IndexSlot> = Vec::new();
        let mut pruned: Vec<String> = Vec::new();
        let mut total: u64 = 0;
        let mut i: usize = 0;
        while i < self.entries.len()
            invariant
                self.entries == old(self).entries,
                self@ == before,
                self.total_bytes == total_size(before),
                i <= self.entries@.len(),
                Seq::new(kept@.len(), |k: int| (kept@[k].key@, kept@[k].entry)) == live_slots(
                    before.subrange(0, i as int),
                    now,
                ),
                pruned.len() == expired_keys(before.subrange(0, i as int), now).len(),
                forall|k: int|
                    0 <= k < pruned.len() ==> (#[trigger] pruned[k])@ == expired_keys(
                        before.subrange(0, i as int),
                        now,
                    )[k],
                total == total_size(live_slots(before.subrange(0, i as int), now)),
                total <= total_size(before.subrange(0, i as int)),
                keys_selected(live_slots(before.subrange(0, i as int), now), before, places),
                forall|k: int| 0 <= k < places.len() ==> (#[trigger] places[k]) < i,
            decreases self.entries@.len() - i,
        {
            let ghost prefix = before.subrange(0, i as int);
            let ghost next = before.subrange(0, i + 1);
            let ghost live = live_slots(prefix, now);
            assert(next.drop_last() == prefix);
            assert(next.last() == before[i as int]);
            let slot = &self.entries[i];
            assert(before[i as int] == (slot.key@, slot.entry));
            if slot.entry.is_expired_at(now) {
                pruned.push(slot.key.clone());
            } else {
                proof {
                    lemma_total_size_push(live, before[i as int]);
                    lemma_total_size_prefix(before, i + 1);
                    places = places.push(i as int);
                }
                total = total + slot.entry.size_bytes;
                kept.push(IndexSlot { key: slot.key.clone(), entry: slot.entry });
                assert(Seq::new(kept@.len(), |k: int| (kept@[k].key@, kept@[k].entry)) == live.push(
                    before[i as int],
                ));
            }
            i += 1;
        }
        assert(before.subrange(0, i as int) == before);
        proof {
            lemma_selection_distinct(live_slots(before, now), before, places);
        }
        self.entries = kept;
        self.total_bytes = total;
        pruned
    }

    /// Holds the index against the payloads found on disk. `sizes[i]` is the
    /// size of the payload of the `i`-th key, or `None` where the payload is
    /// missing. Entries without payload leave the index, the others take the
    /// size found, and the total is the sum of the sizes found.
    pub fn recalculate_bytes(&mut self, sizes: &Vec<Option<u64>>)
        requires
            old(self).wf(),
            sizes@.len() == old(self)@.len(),
            total_size(reconciled(old(self)@, sizes@)) <= u64::MAX,
        ensures
            final(self).wf(),
            final(self)@ == reconciled(old(self)@, sizes@),
    {
        let ghost before = self@;
        let ghost mut places: Seq<int> = Seq::empty();
        let mut kept: Vec<IndexSlot> = Vec::new();
        let mut total: u64 = 0;
        let mut i: usize = 0;
        while i < self.entries.len()
            invariant
                self.entries == old(self).entries,
                self@ == before,
                sizes@.len() == before.len(),
                total_size(reconciled(before, sizes@)) <= u64::MAX,
                i <= self.entries@.len(),
                Seq::new(kept@.len(), |k: int| (kept@[k].key@, kept@[k].entry)) == reconciled(
                    before.subrange(0, i as int),
                    sizes@.subrange(0, i as int),
                ),
                total == total_size(
                    reconciled(before.subrange(0, i as int), sizes@.subrange(0, i as int)),
                ),
                keys_selected(
                    reconciled(before.subrange(0, i as int), sizes@.subrange(0, i as int)),
                    before,
                    places,
                ),
                forall|k: int| 0 <= k < places.len() ==> (#[trigger] places[k]) < i,
            decreases self.entries@.len() - i,
        {
            let ghost rest = reconciled(before.subrange(0, i as int), sizes@.subrange(0, i as int));
            assert(before.subrange(0, i + 1).drop_last() == before.subrange(0, i as int));
            assert(sizes@.subrange(0, i + 1).drop_last() == sizes@.subrange(0, i as int));
            assert(before.subrange(0, i + 1).last() == before[i as int]);
            assert(sizes@.subrange(0, i + 1).last() == sizes@[i as int]);
            let slot = &self.entries[i];
            assert(before[i as int] == (slot.key@, slot.entry));
            match sizes[i] {
                Some(size) => {
                    let entry = CacheIndexEntry { size_bytes: size, ..slot.entry };
                    proof {
                        lemma_total_size_push(rest, (slot.key@, entry));
                        lemma_reconciled_prefix(before, sizes@, i + 1);
                        places = places.push(i as int);
                    }
                    total = total + size;
                    kept.push(IndexSlot { key: slot.key.clone(), entry });
                    assert(Seq::new(kept@.len(), |k: int| (kept@[k].key@, kept@[k].entry))
                        == rest.push((slot.key@, entry)));
                },
                None => {},
            }
            i += 1;
        }
        assert(before.subrange(0, i as int) == before);
        assert(sizes@.subrange(0, i as int) == sizes@);
        proof {
            lemma_selection_distinct(reconciled(before, sizes@), before, places);
        }
        self.entries = kept;
        self.total_bytes = total;
    }
}

} // verus!
