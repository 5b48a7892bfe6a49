//! The policy in front of a cache backend: the switch that turns the cache
//! off, the time-to-live of each category, and the counters.
use vstd::prelude::*;
use crate::cache::config::{CacheConfig, CacheableTool};
use crate::cache::store::{CacheEntry, CacheError, CacheStore, CacheStorePutOutcome, CacheStoreStats};
use crate::telemetry::{
    bumped, spec_hit_rate, tool_at, tool_snapshot, CacheCounters, CacheTelemetry,
    CacheTelemetrySnapshot,
};

verus! {

/// The state of the cache as reports show it.
#[derive(Debug, Clone)]
pub struct CacheStatus {
    pub enabled: bool,
    pub dir: String,
    pub max_bytes: u64,
    pub stats: CacheStoreStats,
    pub telemetry: CacheTelemetrySnapshot,
}

/// `count` raised by `n`, starting over at zero behind the largest value.
pub open spec fn bumped_by(count: u64, n: nat) -> u64 {
    ((count + n) % 0x1_0000_0000_0000_0000) as u64
}

/// The value that a lookup hands on: the payload of a hit, nothing for a
/// miss or a failure.
pub open spec fn lookup_value(result: Result<Option<CacheEntry>, CacheError>) -> Option<Seq<u8>> {
    match result {
        Ok(Some(entry)) => Some(entry.value@),
        _ => None,
    }
}

/// How a lookup for `tool` that ended in `result` moves the counters from
/// `before` to `after`: a hit and a miss are counted, in total and for the
/// category; a failure is not.
pub open spec fn lookup_counted(
    before: CacheTelemetry,
    after: CacheTelemetry,
    result: Result<Option<CacheEntry>, CacheError>,
    tool: CacheableTool,
) -> bool {
    &&& forall|other: CacheableTool|
        other != tool ==> #[trigger] after.per_tool(other) == before.per_tool(other)
    &&& match result {
        Ok(Some(_)) => {
            &&& after.overall() == (CacheCounters {
                hits: bumped(before.overall().hits),
                ..before.overall()
            })
            &&& after.per_tool(tool) == (CacheCounters {
                hits: bumped(before.per_tool(tool).hits),
                ..before.per_tool(tool)
            })
        },
        Ok(None) => {
            &&& after.overall() == (CacheCounters {
                misses: bumped(before.overall().misses),
                ..before.overall()
            })
            &&& after.per_tool(tool) == (CacheCounters {
                misses: bumped(before.per_tool(tool).misses),
                ..before.per_tool(tool)
            })
        },
        Err(_) => after.overall() == before.overall() && after.per_tool(tool) == before.per_tool(
            tool,
        ),
    }
}

/// How a store for `tool` that ended in `result` moves the counters from
/// `before` to `after`: a success counts one store and one eviction for each
/// entry that left, in total and for the category; a failure counts nothing.
pub open spec fn put_counted(
    before: CacheTelemetry,
    after: CacheTelemetry,
    result: Result<CacheStorePutOutcome, CacheError>,
    tool: CacheableTool,
) -> bool {
    &&& forall|other: CacheableTool|
        other != tool ==> #[trigger] after.per_tool(other) == before.per_tool(other)
    &&& match result {
        Ok(outcome) => {
            &&& after.overall() == (CacheCounters {
                stores: bumped(before.overall().stores),
                evictions: bumped_by(before.overall().evictions, outcome.evicted as nat),
                ..before.overall()
            })
            &&& after.per_tool(tool) == (CacheCounters {
                stores: bumped(before.per_tool(tool).stores),
                evictions: bumped_by(before.per_tool(tool).evictions, outcome.evicted as nat),
                ..before.per_tool(tool)
            })
        },
        Err(_) => after.overall() == before.overall() && after.per_tool(tool) == before.per_tool(
            tool,
        ),
    }
}

/// A cache backend behind its policy.
pub struct CacheManager<S> {
    config: CacheConfig,
    store: S,
    telemetry: CacheTelemetry,
}

impl<S: CacheStore> CacheManager<S> {
    /// The policy in force.
    pub closed spec fn config(&self) -> CacheConfig {
        self.config
    }

    /// The counters.
    pub closed spec fn telemetry(&self) -> CacheTelemetry {
        self.telemetry
    }

    /// The backend.
    pub closed spec fn store(&self) -> S {
        self.store
    }

    /// A manager of `store` under `config`, with all counters at zero.
    pub fn new(config: CacheConfig, store: S) -> (manager: Self)
        ensures
            manager.config() == config,
            manager.store() == store,
            manager.telemetry().overall() == (CacheCounters {
                hits: 0,
                misses: 0,
                stores: 0,
                evictions: 0,
            }),
            forall|tool: CacheableTool| #[trigger]
                manager.telemetry().per_tool(tool) == (CacheCounters {
                    hits: 0,
                    misses: 0,
                    stores: 0,
                    evictions: 0,
                }),
    {
        CacheManager { config, store, telemetry: CacheTelemetry::new() }
    }

    /// Whether the cache is switched on.
    pub fn enabled(&self) -> (enabled: bool)
        ensures
            enabled == self.config().enabled,
    {
        self.config.enabled
    }

    /// The time-to-live of `tool` in seconds.
    pub fn ttl_for(&self, tool: CacheableTool) -> (ttl: u64)
        ensures
            ttl == self.config().spec_ttl_for(tool),
    {
        self.config.ttl_for(tool)
    }

    /// Counts a lookup for `tool` that ended in `result`, and hands on the
    /// payload of a hit.
    pub fn record_lookup(
        &mut self,
        result: Result<Option<CacheEntry>, CacheError>,
        tool: CacheableTool,
    ) -> (value: Option<Vec<u8>>)
        ensures
            final(self).config() == old(self).config(),
            final(self).store() == old(self).store(),
            lookup_counted(old(self).telemetry(), final(self).telemetry(), result, tool),
            match value {
                Some(bytes) => lookup_value(result) == Some(bytes@),
                None => lookup_value(result) is None,
            },
    {
        match result {
            Ok(Some(entry)) => {
                self.telemetry.record_hit(tool);
                Some(entry.value)
            },
            Ok(None) => {
                self.telemetry.record_miss(tool);
                None
            },
            Err(_) => None,
        }
    }

    /// The cached value of `key`. With the cache switched off this is a miss
    /// that neither asks the backend nor counts. Else the backend is asked;
    /// a hit and a miss are counted for `tool`, and a failure of the backend
    /// is a miss that is not counted.
    pub fn get(&mut self, key: &str, tool: CacheableTool) -> (value: Option<Vec<u8>>)
        ensures
            final(self).config() == old(self).config(),
            final(self).store() == old(self).store(),
            !old(self).config().enabled ==> value is None && final(self).telemetry() == old(
                self,
            ).telemetry(),
            old(self).config().enabled ==> exists|result: Result<Option<CacheEntry>, CacheError>|
                {
                    &&& #[trigger] lookup_counted(
                        old(self).telemetry(),
                        final(self).telemetry(),
                        result,
                        tool,
                    )
                    &&& match value {
                        Some(bytes) => lookup_value(result) == Some(bytes@),
                        None => lookup_value(result) is None,
                    }
                },
    {
        if !self.enabled() {
            return None;
        }
        let result = self.store.get(key);
        self.record_lookup(result, tool)
    }

    /// Counts a store for `tool` that ended in `result`.
    pub fn record_put(&mut self, result: Result<CacheStorePutOutcome, CacheError>, tool: CacheableTool)
        ensures
            final(self).config() == old(self).config(),
            final(self).store() == old(self).store(),
            put_counted(old(self).telemetry(), final(self).telemetry(), result, tool),
    {
        match result {
            Ok(outcome) => {
                self.telemetry.record_store(tool);
                let ghost stored = self.telemetry;
                let mut i: usize = 0;
                while i < outcome.evicted
                    invariant
                        i <= outcome.evicted,
                        self.config == old(self).config,
                        self.store == old(self).store,
                        self.telemetry.overall() == (CacheCounters {
                            evictions: bumped_by(stored.overall().evictions, i as nat),
                            ..stored.overall()
                        }),
                        self.telemetry.per_tool(tool) == (CacheCounters {
                            evictions: bumped_by(stored.per_tool(tool).evictions, i as nat),
                            ..stored.per_tool(tool)
                        }),
                        forall|other: CacheableTool|
                            other != tool ==> #[trigger] self.telemetry.per_tool(other)
                                == stored.per_tool(other),
                    decreases outcome.evicted - i,
                {
                    self.telemetry.record_eviction(tool);
                    i += 1;
                }
            },
            Err(_) => {},
        }
    }

    /// Stores `value` under `key` for `ttl_secs` seconds. With the cache
    /// switched off nothing happens. Else the backend is asked; a success
    /// counts one store and one eviction for each entry that left, and a
    /// failure of the backend counts nothing.
    pub fn put(&mut self, key: String, value: Vec<u8>, ttl_secs: u64, tool: CacheableTool)
        ensures
            final(self).config() == old(self).config(),
            final(self).store() == old(self).store(),
            !old(self).config().enabled ==> final(self).telemetry() == old(self).telemetry(),
            old(self).config().enabled ==> exists|result: Result<CacheStorePutOutcome, CacheError>| #[trigger]
                put_counted(old(self).telemetry(), final(self).telemetry(), result, tool),
    {
        if !self.enabled() {
            return ;
        }
        let entry = CacheEntry { key, value, ttl_secs };
        let result = self.store.put(entry);
        self.record_put(result, tool);
    }

    /// Empties the backend, whether or not the cache is switched on.
    pub fn clear(&self) -> (done: Result<(), CacheError>) {
        self.store.clear()
    }

    /// Whether `report` is the report on the cache when its backend holds
    /// `stats`: the policy, the size of the store and the counters with
    /// their hit rates.
    pub open spec fn reports(&self, report: CacheStatus, stats: CacheStoreStats) -> bool {
        &&& report.enabled == self.config().enabled
        &&& report.dir@ == self.config().dir@
        &&& report.max_bytes == self.config().max_bytes
        &&& report.stats == stats
        &&& report.telemetry.hits == self.telemetry().overall().hits
        &&& report.telemetry.misses == self.telemetry().overall().misses
        &&& report.telemetry.stores == self.telemetry().overall().stores
        &&& report.telemetry.evictions == self.telemetry().overall().evictions
        &&& report.telemetry.hit_rate == spec_hit_rate(
            self.telemetry().overall().hits,
            self.telemetry().overall().misses,
        )
        &&& report.telemetry.by_tool@.len() == 3
        &&& forall|i: int|
            0 <= i < 3 ==> #[trigger] report.telemetry.by_tool@[i] == tool_snapshot(
                tool_at(i),
                self.telemetry().per_tool(tool_at(i)),
            )
    }

    /// The report on the cache from what its backend said of its size: the
    /// report where it said it, its failure where it did not.
    pub fn status_from(&self, stats: Result<CacheStoreStats, CacheError>) -> (status: Result<
        CacheStatus,
        CacheError,
    >)
        ensures
            match stats {
                Ok(held) => status matches Ok(report) && self.reports(report, held),
                Err(err) => status == Err::<CacheStatus, CacheError>(err),
            },
    {
        match stats {
            Ok(held) => Ok(
                CacheStatus {
                    enabled: self.config.enabled,
                    dir: self.config.dir.clone(),
                    max_bytes: self.config.max_bytes,
                    stats: held,
                    telemetry: self.telemetry.snapshot(),
                },
            ),
            Err(err) => Err(err),
        }
    }

    /// The report on the cache; the failure of the backend where it cannot
    /// say what it holds.
    pub fn status(&self) -> (status: Result<CacheStatus, CacheError>)
        ensures
            status matches Ok(report) ==> exists|stats: CacheStoreStats| #[trigger]
                self.reports(report, stats),
    {
        self.status_from(self.store.stats())
    }
}

} // verus!
