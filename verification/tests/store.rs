use std::collections::HashMap;

use semcache::cache::index::{CacheIndex, CacheIndexEntry, IndexSlot};
use semcache::cache::store::{CacheEntry, DiskCacheStore, Lookup};

/// The payload files of a store, held in memory.
struct Disk {
    files: HashMap<String, Vec<u8>>,
}

fn new_store(max_bytes: u64) -> (DiskCacheStore, Disk) {
    (
        DiskCacheStore::new("/cache", max_bytes, CacheIndex::new()),
        Disk { files: HashMap::new() },
    )
}

fn put(store: &mut DiskCacheStore, disk: &mut Disk, key: &str, value: &[u8], ttl_secs: u64, now: u64) -> usize {
    let entry = CacheEntry { key: key.to_string(), value: value.to_vec(), ttl_secs };
    let plan = store.put(&entry, now);
    for gone in &plan.evicted {
        disk.files.remove(&store.entry_path(gone));
    }
    if plan.stored {
        disk.files.insert(store.entry_path(key), entry.value.clone());
    }
    plan.outcome().evicted
}

fn get(store: &mut DiskCacheStore, disk: &mut Disk, key: &str, now: u64) -> Option<CacheEntry> {
    match store.lookup(key, now) {
        Lookup::Absent => None,
        Lookup::Expired => {
            disk.files.remove(&store.entry_path(key));
            None
        }
        Lookup::Live => {
            let payload = disk.files.get(&store.entry_path(key)).cloned();
            store.complete_get(key, payload, now)
        }
    }
}

#[test]
fn stores_and_retrieves_values() {
    let (mut store, mut disk) = new_store(1024);
    put(&mut store, &mut disk, "alpha", b"one", 60, 1000);
    let cached = get(&mut store, &mut disk, "alpha", 1000).expect("cache entry");
    assert_eq!(cached.value, b"one".to_vec());
    assert_eq!(cached.key, "alpha");
    assert_eq!(cached.ttl_secs, 60);
}

#[test]
fn evicts_when_over_capacity() {
    let (mut store, mut disk) = new_store(10);
    put(&mut store, &mut disk, "alpha", b"123456", 60, 1000);
    let evicted = put(&mut store, &mut disk, "bravo", b"abcdef", 60, 1000);

    assert_eq!(evicted, 1);
    assert!(get(&mut store, &mut disk, "alpha", 1000).is_none());
    assert!(get(&mut store, &mut disk, "bravo", 1000).is_some());
}

#[test]
fn expired_entries_are_not_returned() {
    let (mut store, mut disk) = new_store(1024);
    put(&mut store, &mut disk, "alpha", b"stale", 0, 1000);

    assert!(get(&mut store, &mut disk, "alpha", 1000).is_none());
    assert_eq!(store.stats().entries, 0);
    assert_eq!(store.stats().total_bytes, 0);
}

#[test]
fn clear_removes_entries() {
    let (mut store, mut disk) = new_store(1024);
    put(&mut store, &mut disk, "alpha", b"one", 60, 1000);
    let keys = store.clear();
    assert_eq!(keys, vec!["alpha".to_string()]);
    for key in keys {
        disk.files.remove(&store.entry_path(&key));
    }

    assert!(get(&mut store, &mut disk, "alpha", 1000).is_none());
    assert!(disk.files.is_empty());
}

#[test]
fn store_paths_follow_the_layout() {
    let (store, _) = new_store(1024);
    assert_eq!(store.entries_path(), "/cache/entries");
    assert_eq!(store.index_path(), "/cache/index.json");
    assert_eq!(store.temp_index_path(), "/cache/index.json.tmp");
    assert_eq!(store.entry_path("abc"), "/cache/entries/abc");
    assert_eq!(store.max_bytes(), 1024);
}

#[test]
fn zero_budget_stores_nothing() {
    let (mut store, mut disk) = new_store(0);
    let evicted = put(&mut store, &mut disk, "alpha", b"one", 60, 1000);
    assert_eq!(evicted, 0);
    assert_eq!(store.stats().entries, 0);
    assert!(get(&mut store, &mut disk, "alpha", 1000).is_none());
}

#[test]
fn oversized_value_is_refused() {
    let (mut store, mut disk) = new_store(4);
    put(&mut store, &mut disk, "small", b"abc", 60, 1000);
    let entry = CacheEntry { key: "big".to_string(), value: b"abcde".to_vec(), ttl_secs: 60 };
    let plan = store.put(&entry, 1001);
    assert!(!plan.stored);
    assert!(!plan.replaced);
    assert!(plan.evicted.is_empty());
    assert_eq!(store.stats().entries, 1);
    assert!(get(&mut store, &mut disk, "small", 1001).is_some());
}

#[test]
fn put_replaces_an_earlier_entry_of_the_key() {
    let (mut store, mut disk) = new_store(10);
    put(&mut store, &mut disk, "alpha", b"123456", 60, 1000);
    let entry = CacheEntry { key: "alpha".to_string(), value: b"abcdefgh".to_vec(), ttl_secs: 60 };
    let plan = store.put(&entry, 1001);
    assert!(plan.stored);
    assert!(plan.replaced);
    assert!(plan.evicted.is_empty());
    assert_eq!(store.stats().entries, 1);
    assert_eq!(store.stats().total_bytes, 8);
}

#[test]
fn eviction_takes_the_least_recently_used_first() {
    let (mut store, mut disk) = new_store(9);
    put(&mut store, &mut disk, "a", b"123", 60, 100);
    put(&mut store, &mut disk, "b", b"123", 60, 101);
    put(&mut store, &mut disk, "c", b"123", 60, 102);
    // Reading "a" makes it the most recently used.
    assert!(get(&mut store, &mut disk, "a", 103).is_some());
    let entry = CacheEntry { key: "d".to_string(), value: b"12345".to_vec(), ttl_secs: 60 };
    let plan = store.put(&entry, 104);
    assert_eq!(plan.evicted, vec!["b".to_string(), "c".to_string()]);
    assert_eq!(plan.outcome().evicted, 2);
    assert!(store.index().contains_key("a"));
    assert!(store.index().contains_key("d"));
    assert_eq!(store.stats().total_bytes, 8);
}

#[test]
fn eviction_ties_go_to_the_entry_stored_first() {
    let (mut store, mut disk) = new_store(6);
    put(&mut store, &mut disk, "x", b"123", 60, 100);
    put(&mut store, &mut disk, "y", b"123", 60, 100);
    let entry = CacheEntry { key: "z".to_string(), value: b"123".to_vec(), ttl_secs: 60 };
    let plan = store.put(&entry, 100);
    assert_eq!(plan.evicted, vec!["x".to_string()]);
}

#[test]
fn entry_expires_once_its_age_exceeds_its_ttl() {
    let entry = CacheIndexEntry { size_bytes: 1, inserted_epoch: 100, last_access_epoch: 100, ttl_secs: 10 };
    assert!(!entry.is_expired_at(100));
    assert!(!entry.is_expired_at(110));
    assert!(entry.is_expired_at(111));
    // A clock that reads earlier than the insertion gives the age zero.
    assert!(!entry.is_expired_at(5));
    let zero = CacheIndexEntry { ttl_secs: 0, ..entry };
    assert!(zero.is_expired_at(100));
    assert!(zero.is_expired());
}

#[test]
fn fresh_entry_is_not_expired_by_the_clock() {
    let now = std::time::SystemTime::now()
        .duration_since(std::time::UNIX_EPOCH)
        .map(|d| d.as_secs())
        .unwrap_or(0);
    let fresh = CacheIndexEntry { size_bytes: 1, inserted_epoch: now, last_access_epoch: now, ttl_secs: 3600 };
    assert!(!fresh.is_expired());
    let old = CacheIndexEntry { size_bytes: 1, inserted_epoch: 1, last_access_epoch: 1, ttl_secs: 1 };
    assert!(old.is_expired());
}

#[test]
fn lookup_of_an_expired_entry_removes_it() {
    let (mut store, mut disk) = new_store(1024);
    put(&mut store, &mut disk, "alpha", b"one", 10, 1000);
    assert_eq!(store.lookup("alpha", 1010), Lookup::Live);
    assert_eq!(store.lookup("alpha", 1011), Lookup::Expired);
    assert_eq!(store.lookup("alpha", 1011), Lookup::Absent);
    assert_eq!(store.stats().total_bytes, 0);
}

#[test]
fn missing_payload_is_a_miss_that_drops_the_entry() {
    let (mut store, mut disk) = new_store(1024);
    put(&mut store, &mut disk, "alpha", b"one", 60, 1000);
    disk.files.clear();
    assert!(get(&mut store, &mut disk, "alpha", 1001).is_none());
    assert_eq!(store.stats().entries, 0);
    assert_eq!(store.lookup("alpha", 1001), Lookup::Absent);
}

#[test]
fn hit_updates_the_time_of_last_access() {
    let (mut store, mut disk) = new_store(1024);
    put(&mut store, &mut disk, "alpha", b"one", 60, 1000);
    assert!(get(&mut store, &mut disk, "alpha", 1030).is_some());
    let entry = store.index().lookup("alpha").expect("entry");
    assert_eq!(entry.last_access_epoch, 1030);
    assert_eq!(entry.inserted_epoch, 1000);
    assert_eq!(entry.size_bytes, 3);
}

#[test]
fn remove_reports_whether_there_was_an_entry() {
    let (mut store, mut disk) = new_store(1024);
    put(&mut store, &mut disk, "alpha", b"one", 60, 1000);
    assert!(store.remove("alpha"));
    assert!(!store.remove("alpha"));
    assert_eq!(store.stats().entries, 0);
}

fn slot(key: &str, size: u64, inserted: u64, ttl: u64) -> IndexSlot {
    IndexSlot {
        key: key.to_string(),
        entry: CacheIndexEntry { size_bytes: size, inserted_epoch: inserted, last_access_epoch: inserted, ttl_secs: ttl },
    }
}

#[test]
fn index_prunes_what_is_expired() {
    let mut index = CacheIndex::from_slots(vec![
        slot("a", 1, 100, 10),
        slot("b", 2, 100, 0),
        slot("c", 4, 100, 1000),
        slot("d", 8, 10, 50),
    ])
    .expect("index");
    assert_eq!(index.total_bytes(), 15);
    let pruned = index.prune_expired(105);
    assert_eq!(pruned, vec!["b".to_string(), "d".to_string()]);
    assert_eq!(index.keys(), vec!["a".to_string(), "c".to_string()]);
    assert_eq!(index.total_bytes(), 5);
    assert_eq!(index.len(), 2);
}

#[test]
fn index_is_held_against_the_payloads_found() {
    let mut index = CacheIndex::from_slots(vec![slot("a", 1, 100, 10), slot("b", 2, 100, 10), slot("c", 4, 100, 10)])
        .expect("index");
    index.recalculate_bytes(&vec![Some(10), None, Some(5)]);
    assert_eq!(index.keys(), vec!["a".to_string(), "c".to_string()]);
    assert_eq!(index.total_bytes(), 15);
    assert_eq!(index.lookup("a").expect("a").size_bytes, 10);
    assert!(index.lookup("b").is_none());
}

#[test]
fn a_list_with_a_key_twice_is_no_index() {
    assert!(CacheIndex::from_slots(vec![slot("a", 1, 100, 10), slot("a", 2, 100, 10)]).is_none());
    assert!(CacheIndex::from_slots(vec![slot("a", u64::MAX, 100, 10), slot("b", 1, 100, 10)]).is_none());
    let index = CacheIndex::from_slots(vec![slot("a", 1, 100, 10)]).expect("index");
    let slots = index.to_slots();
    assert_eq!(slots.len(), 1);
    assert_eq!(slots[0].key, "a");
    assert_eq!(slots[0].entry.size_bytes, 1);
}

#[test]
fn oldest_entry_is_the_least_recently_used() {
    let mut index = CacheIndex::new();
    assert!(index.oldest_entry().is_none());
    index.insert("a".to_string(), CacheIndexEntry { size_bytes: 1, inserted_epoch: 5, last_access_epoch: 9, ttl_secs: 1 });
    index.insert("b".to_string(), CacheIndexEntry { size_bytes: 1, inserted_epoch: 5, last_access_epoch: 7, ttl_secs: 1 });
    index.insert("c".to_string(), CacheIndexEntry { size_bytes: 1, inserted_epoch: 5, last_access_epoch: 7, ttl_secs: 1 });
    let (key, entry) = index.oldest_entry().expect("oldest");
    assert_eq!(key, "b");
    assert_eq!(entry.last_access_epoch, 7);
    assert!(index.touch("b", 20));
    assert!(!index.touch("nope", 20));
    assert_eq!(index.oldest_entry().expect("oldest").0, "c");
    assert!(index.remove_entry("c"));
    assert_eq!(index.clear(), vec!["a".to_string(), "b".to_string()]);
    assert_eq!(index.len(), 0);
    assert_eq!(index.total_bytes(), 0);
}

#[test]
fn a_store_is_loaded_from_what_its_file_held() {
    let loaded = vec![slot("a", 1, 100, 10), slot("b", 2, 100, 0), slot("c", 4, 100, 1000), slot("d", 8, 10, 50)];
    let (mut store, pruned) = DiskCacheStore::load("/cache", 64, Some(loaded), 105);
    assert_eq!(pruned, vec!["b".to_string(), "d".to_string()]);
    assert_eq!(store.index().keys(), vec!["a".to_string(), "c".to_string()]);
    assert_eq!(store.stats(), semcache::cache::store::CacheStoreStats { entries: 2, total_bytes: 5 });
    assert_eq!(store.max_bytes(), 64);
    assert_eq!(store.entry_path("a"), "/cache/entries/a");

    // Payloads decide: a missing one drops its entry, the others give the sizes.
    assert!(!store.reconcile(&vec![Some(1)]));
    assert!(!store.reconcile(&vec![Some(u64::MAX), Some(1)]));
    assert_eq!(store.stats().total_bytes, 5);
    assert!(store.reconcile(&vec![None, Some(9)]));
    assert_eq!(store.index().keys(), vec!["c".to_string()]);
    assert_eq!(store.stats().total_bytes, 9);
}

#[test]
fn a_file_without_an_index_gives_an_empty_store() {
    let (store, pruned) = DiskCacheStore::load("/cache", 64, None, 105);
    assert!(pruned.is_empty());
    assert_eq!(store.stats().entries, 0);
    let twice = vec![slot("a", 1, 100, 10), slot("a", 2, 100, 10)];
    let (store, pruned) = DiskCacheStore::load("/cache", 64, Some(twice), 105);
    assert!(pruned.is_empty());
    assert_eq!(store.stats().entries, 0);
}
