use std::sync::Mutex;
use std::collections::HashMap;

use semcache::cache::config::{CacheConfig, CacheConfigToml, CacheToolTtlToml, CacheableTool};
use semcache::cache::manager::CacheManager;
use semcache::cache::store::{
    CacheEntry, CacheError, CacheStore, CacheStorePutOutcome, CacheStoreStats,
};

/// A backend in memory that can be told to fail.
struct MemoryStore {
    entries: Mutex<HashMap<String, CacheEntry>>,
    evict_on_put: usize,
    failing: bool,
    calls: Mutex<usize>,
}

impl MemoryStore {
    fn new(evict_on_put: usize, failing: bool) -> Self {
        MemoryStore { entries: Mutex::new(HashMap::new()), evict_on_put, failing, calls: Mutex::new(0) }
    }

    fn called(&self) -> Result<(), CacheError> {
        *self.calls.lock().expect("lock") += 1;
        if self.failing {
            Err(CacheError::Io("disk on fire".to_string()))
        } else {
            Ok(())
        }
    }
}

impl CacheStore for MemoryStore {
    fn get(&self, key: &str) -> Result<Option<CacheEntry>, CacheError> {
        self.called()?;
        Ok(self.entries.lock().expect("lock").get(key).cloned())
    }

    fn put(&self, entry: CacheEntry) -> Result<CacheStorePutOutcome, CacheError> {
        self.called()?;
        self.entries.lock().expect("lock").insert(entry.key.clone(), entry);
        Ok(CacheStorePutOutcome { evicted: self.evict_on_put })
    }

    fn remove(&self, key: &str) -> Result<(), CacheError> {
        self.called()?;
        self.entries.lock().expect("lock").remove(key);
        Ok(())
    }

    fn clear(&self) -> Result<(), CacheError> {
        self.called()?;
        self.entries.lock().expect("lock").clear();
        Ok(())
    }

    fn stats(&self) -> Result<CacheStoreStats, CacheError> {
        self.called()?;
        let entries = self.entries.lock().expect("lock");
        Ok(CacheStoreStats {
            entries: entries.len(),
            total_bytes: entries.values().map(|e| e.value.len() as u64).sum(),
        })
    }
}

fn config(enabled: bool) -> CacheConfig {
    CacheConfig::new(
        "/home",
        Some(CacheConfigToml {
            enabled: Some(enabled),
            dir: None,
            max_bytes: Some(4096),
            default_ttl_sec: None,
            tool_ttl_sec: CacheToolTtlToml::default(),
        }),
    )
}

#[test]
fn hits_misses_stores_and_evictions_are_counted() {
    let mut manager = CacheManager::new(config(true), MemoryStore::new(2, false));
    assert!(manager.enabled());
    assert_eq!(manager.ttl_for(CacheableTool::ReadFile), 300);
    assert_eq!(manager.ttl_for(CacheableTool::ListDir), 60);
    assert_eq!(manager.get("k", CacheableTool::ReadFile), None);
    manager.put("k".to_string(), b"value".to_vec(), 60, CacheableTool::ReadFile);
    assert_eq!(manager.get("k", CacheableTool::ReadFile), Some(b"value".to_vec()));
    assert_eq!(manager.get("k", CacheableTool::GrepFiles), Some(b"value".to_vec()));

    let status = manager.status().expect("status");
    assert!(status.enabled);
    assert_eq!(status.dir, "/home/cache");
    assert_eq!(status.max_bytes, 4096);
    assert_eq!(status.stats, CacheStoreStats { entries: 1, total_bytes: 5 });
    assert_eq!(status.telemetry.hits, 2);
    assert_eq!(status.telemetry.misses, 1);
    assert_eq!(status.telemetry.stores, 1);
    assert_eq!(status.telemetry.evictions, 2);
    let read_file = &status.telemetry.by_tool[0];
    assert_eq!((read_file.hits, read_file.misses, read_file.stores, read_file.evictions), (1, 1, 1, 2));
    let grep = &status.telemetry.by_tool[2];
    assert_eq!((grep.hits, grep.misses, grep.stores, grep.evictions), (1, 0, 0, 0));

    manager.clear().expect("clear");
    assert_eq!(manager.get("k", CacheableTool::ReadFile), None);
}

#[test]
fn a_cache_that_is_off_never_asks_the_backend() {
    let mut manager = CacheManager::new(config(false), MemoryStore::new(0, true));
    assert!(!manager.enabled());
    assert_eq!(manager.get("k", CacheableTool::ReadFile), None);
    manager.put("k".to_string(), b"value".to_vec(), 60, CacheableTool::ReadFile);

    let probe = CacheManager::new(config(false), MemoryStore::new(0, false));
    let status = probe.status().expect("status");
    assert!(!status.enabled);
    assert_eq!(status.telemetry.hits + status.telemetry.misses + status.telemetry.stores, 0);
    assert_eq!(status.telemetry.hit_rate, None);
}

#[test]
fn failures_of_the_backend_are_misses_that_are_not_counted() {
    let mut manager = CacheManager::new(config(true), MemoryStore::new(0, true));
    assert_eq!(manager.get("k", CacheableTool::ReadFile), None);
    manager.put("k".to_string(), b"value".to_vec(), 60, CacheableTool::ReadFile);
    assert!(manager.status().is_err());
    assert!(manager.clear().is_err());
    assert!(matches!(
        manager.status_from(Err(CacheError::LockPoisoned)),
        Err(CacheError::LockPoisoned)
    ));
    let report = manager.status_from(Ok(CacheStoreStats { entries: 0, total_bytes: 0 })).expect("report");
    assert_eq!(report.telemetry.hits, 0);
    assert_eq!(report.telemetry.misses, 0);
    assert_eq!(report.telemetry.stores, 0);
    assert_eq!(report.telemetry.evictions, 0);
}

#[test]
fn outcomes_handed_in_are_counted() {
    let mut manager = CacheManager::new(config(true), MemoryStore::new(0, false));
    let entry = CacheEntry { key: "k".to_string(), value: b"v".to_vec(), ttl_secs: 1 };
    assert_eq!(manager.record_lookup(Ok(Some(entry)), CacheableTool::ListDir), Some(b"v".to_vec()));
    assert_eq!(manager.record_lookup(Ok(None), CacheableTool::ListDir), None);
    assert_eq!(manager.record_lookup(Err(CacheError::LockPoisoned), CacheableTool::ListDir), None);
    manager.record_put(Ok(CacheStorePutOutcome { evicted: 3 }), CacheableTool::ListDir);
    manager.record_put(Err(CacheError::Io("x".to_string())), CacheableTool::ListDir);
    let report = manager.status_from(Ok(CacheStoreStats { entries: 0, total_bytes: 0 })).expect("report");
    assert_eq!(report.telemetry.hits, 1);
    assert_eq!(report.telemetry.misses, 1);
    assert_eq!(report.telemetry.stores, 1);
    assert_eq!(report.telemetry.evictions, 3);
    let list_dir = &report.telemetry.by_tool[1];
    assert_eq!((list_dir.hits, list_dir.misses, list_dir.stores, list_dir.evictions), (1, 1, 1, 3));
}
