use semcache::cache::config::CacheableTool;
use semcache::telemetry::{
    hit_rate, tool_index, CacheCounters, CacheTelemetry, CacheTelemetrySnapshot,
    CacheToolTelemetrySnapshot, HitRate,
};

fn as_float(rate: Option<HitRate>) -> Option<f64> {
    rate.map(|r| r.hits as f64 / r.lookups as f64)
}

#[test]
fn captures_hit_rate_and_counts() {
    let mut telemetry = CacheTelemetry::default();

    telemetry.record_hit(CacheableTool::ReadFile);
    telemetry.record_hit(CacheableTool::GrepFiles);
    telemetry.record_miss(CacheableTool::ListDir);
    telemetry.record_store(CacheableTool::ReadFile);
    telemetry.record_eviction(CacheableTool::ListDir);

    let snapshot = telemetry.snapshot();

    assert_eq!(snapshot.hits, 2);
    assert_eq!(snapshot.misses, 1);
    assert_eq!(snapshot.stores, 1);
    assert_eq!(snapshot.evictions, 1);
    assert_eq!(as_float(snapshot.hit_rate), Some(2.0 / 3.0));
    assert_eq!(snapshot.hit_rate, Some(HitRate { hits: 2, lookups: 3 }));
    assert_eq!(snapshot.by_tool.len(), 3);
    assert_eq!(
        snapshot.by_tool[0],
        CacheToolTelemetrySnapshot {
            tool: CacheableTool::ReadFile,
            hits: 1,
            misses: 0,
            stores: 1,
            evictions: 0,
            hit_rate: Some(HitRate { hits: 1, lookups: 1 }),
        }
    );
    assert_eq!(as_float(snapshot.by_tool[0].hit_rate), Some(1.0));
    assert_eq!(
        snapshot.by_tool[1],
        CacheToolTelemetrySnapshot {
            tool: CacheableTool::ListDir,
            hits: 0,
            misses: 1,
            stores: 0,
            evictions: 1,
            hit_rate: Some(HitRate { hits: 0, lookups: 1 }),
        }
    );
    assert_eq!(as_float(snapshot.by_tool[1].hit_rate), Some(0.0));
    assert_eq!(
        snapshot.by_tool[2],
        CacheToolTelemetrySnapshot {
            tool: CacheableTool::GrepFiles,
            hits: 1,
            misses: 0,
            stores: 0,
            evictions: 0,
            hit_rate: Some(HitRate { hits: 1, lookups: 1 }),
        }
    );
    assert_eq!(as_float(snapshot.by_tool[2].hit_rate), Some(1.0));
}

fn same(a: &CacheTelemetrySnapshot, b: &CacheTelemetrySnapshot) -> bool {
    a.hits == b.hits
        && a.misses == b.misses
        && a.stores == b.stores
        && a.evictions == b.evictions
        && a.hit_rate == b.hit_rate
        && a.by_tool == b.by_tool
}

#[test]
fn hit_rate_is_none_without_samples() {
    let telemetry = CacheTelemetry::default();

    let snapshot = telemetry.snapshot();

    let expected = CacheTelemetrySnapshot {
        hits: 0,
        misses: 0,
        stores: 0,
        evictions: 0,
        hit_rate: None,
        by_tool: vec![
            CacheToolTelemetrySnapshot {
                tool: CacheableTool::ReadFile,
                hits: 0,
                misses: 0,
                stores: 0,
                evictions: 0,
                hit_rate: None,
            },
            CacheToolTelemetrySnapshot {
                tool: CacheableTool::ListDir,
                hits: 0,
                misses: 0,
                stores: 0,
                evictions: 0,
                hit_rate: None,
            },
            CacheToolTelemetrySnapshot {
                tool: CacheableTool::GrepFiles,
                hits: 0,
                misses: 0,
                stores: 0,
                evictions: 0,
                hit_rate: None,
            },
        ],
    };
    assert!(same(&snapshot, &expected));
}

#[test]
fn counters_start_over_behind_the_largest_value() {
    let mut counters = CacheCounters { hits: u64::MAX, misses: 0, stores: u64::MAX - 1, evictions: 7 };
    counters.record_hit();
    counters.record_miss();
    counters.record_store();
    counters.record_eviction();
    let snapshot = counters.snapshot();
    assert_eq!(snapshot.hits, 0);
    assert_eq!(snapshot.misses, 1);
    assert_eq!(snapshot.stores, u64::MAX);
    assert_eq!(snapshot.evictions, 8);
    assert_eq!(CacheCounters::new(), CacheCounters { hits: 0, misses: 0, stores: 0, evictions: 0 });
}

#[test]
fn hit_rate_counts_lookups_beyond_a_u64() {
    assert_eq!(hit_rate(0, 0), None);
    assert_eq!(hit_rate(0, 4), Some(HitRate { hits: 0, lookups: 4 }));
    assert_eq!(
        hit_rate(u64::MAX, u64::MAX),
        Some(HitRate { hits: u64::MAX, lookups: 2 * (u64::MAX as u128) })
    );
    assert_eq!(tool_index(CacheableTool::ReadFile), 0);
    assert_eq!(tool_index(CacheableTool::ListDir), 1);
    assert_eq!(tool_index(CacheableTool::GrepFiles), 2);
}
