//! Counters of what the cache did: hits, misses, stores and evictions, in
//! total and for each category of tool.
use vstd::prelude::*;
use crate::cache::config::CacheableTool;

verus! {

/// `count` raised by one, starting over at zero behind the largest value.
pub open spec fn bumped(count: u64) -> u64 {
    if count == u64::MAX {
        0
    } else {
        (count + 1) as u64
    }
}

/// The place of `tool` among the per-category counters.
pub open spec fn spec_tool_index(tool: CacheableTool) -> usize {
    match tool {
        CacheableTool::ReadFile => 0,
        CacheableTool::ListDir => 1,
        CacheableTool::GrepFiles => 2,
    }
}

/// The place of `tool` among the per-category counters.
#[verifier::when_used_as_spec(spec_tool_index)]
pub fn tool_index(tool: CacheableTool) -> (index: usize)
    ensures
        index == spec_tool_index(tool),
        index < 3,
{
    match tool {
        CacheableTool::ReadFile => 0,
        CacheableTool::ListDir => 1,
        CacheableTool::GrepFiles => 2,
    }
}

/// The category whose counters stand at `index`.
pub open spec fn tool_at(index: int) -> CacheableTool {
    if index == 0 {
        CacheableTool::ReadFile
    } else if index == 1 {
        CacheableTool::ListDir
    } else {
        CacheableTool::GrepFiles
    }
}

/// A share of lookups that were hits: `hits` out of `lookups`.
#[derive(Debug, Clone, Copy, PartialEq, Eq, Structural)]
pub struct HitRate {
    pub hits: u64,
    pub lookups: u128,
}

/// The hit rate of `hits` and `misses`; none without lookups.
pub open spec fn spec_hit_rate(hits: u64, misses: u64) -> Option<HitRate> {
    if hits == 0 && misses == 0 {
        None
    } else {
        Some(HitRate { hits, lookups: (hits + misses) as u128 })
    }
}

/// The hit rate of `hits` and `misses`; none without lookups.
#[verifier::when_used_as_spec(spec_hit_rate)]
pub fn hit_rate(hits: u64, misses: u64) -> (rate: Option<HitRate>)
    ensures
        rate == spec_hit_rate(hits, misses),
{
    let lookups: u128 = hits as u128 + misses as u128;
    if lookups == 0 {
        None
    } else {
        Some(HitRate { hits, lookups })
    }
}

/// Four counters.
#[derive(Debug, Clone, Copy, PartialEq, Eq, Structural)]
pub struct CacheCounters {
    pub hits: u64,
    pub misses: u64,
    pub stores: u64,
    pub evictions: u64,
}

/// The counters as they stood at one moment.
#[derive(Debug, Clone, Copy, PartialEq, Eq, Structural)]
pub struct CacheCountersSnapshot {
    pub hits: u64,
    pub misses: u64,
    pub stores: u64,
    pub evictions: u64,
}

impl CacheCounters {
    /// Counters at zero.
    pub fn new() -> (counters: CacheCounters)
        ensures
            counters == (CacheCounters { hits: 0, misses: 0, stores: 0, evictions: 0 }),
    {
        CacheCounters { hits: 0, misses: 0, stores: 0, evictions: 0 }
    }

    /// Counts one hit.
    pub fn record_hit(&mut self)
        ensures
            *final(self) == (CacheCounters { hits: bumped(old(self).hits), ..*old(self) }),
    {
        self.hits = self.hits.wrapping_add(1);
    }

    /// Counts one miss.
    pub fn record_miss(&mut self)
        ensures
            *final(self) == (CacheCounters { misses: bumped(old(self).misses), ..*old(self) }),
    {
        self.misses = self.misses.wrapping_add(1);
    }

    /// Counts one store.
    pub fn record_store(&mut self)
        ensures
            *final(self) == (CacheCounters { stores: bumped(old(self).stores), ..*old(self) }),
    {
        self.stores = self.stores.wrapping_add(1);
    }

    /// Counts one eviction.
    pub fn record_eviction(&mut self)
        ensures
            *final(self) == (CacheCounters { evictions: bumped(old(self).evictions), ..*old(self) }),
    {
        self.evictions = self.evictions.wrapping_add(1);
    }

    /// The counters as they stand.
    pub fn snapshot(&self) -> (snapshot: CacheCountersSnapshot)
        ensures
            snapshot == (CacheCountersSnapshot {
                hits: self.hits,
                misses: self.misses,
                stores: self.stores,
                evictions: self.evictions,
            }),
    {
        CacheCountersSnapshot {
            hits: self.hits,
            misses: self.misses,
            stores: self.stores,
            evictions: self.evictions,
        }
    }
}

/// What the cache did for one category.
#[derive(Debug, Clone, Copy, PartialEq, Eq, Structural)]
pub struct CacheToolTelemetrySnapshot {
    pub tool: CacheableTool,
    pub hits: u64,
    pub misses: u64,
    pub stores: u64,
    pub evictions: u64,
    pub hit_rate: Option<HitRate>,
}

/// What the cache did, in total and for each category.
#[derive(Debug, Clone)]
pub struct CacheTelemetrySnapshot {
    pub hits: u64,
    pub misses: u64,
    pub stores: u64,
    pub evictions: u64,
    pub hit_rate: Option<HitRate>,
    pub by_tool: Vec<CacheToolTelemetrySnapshot>,
}

/// The report on `tool` from its counters.
pub open spec fn tool_snapshot(tool: CacheableTool, counters: CacheCounters) -> CacheToolTelemetrySnapshot {
    CacheToolTelemetrySnapshot {
        tool,
        hits: counters.hits,
        misses: counters.misses,
        stores: counters.stores,
        evictions: counters.evictions,
        hit_rate: spec_hit_rate(counters.hits, counters.misses),
    }
}

/// The counters of one cache: one set for all lookups and one for each
/// category.
#[derive(Debug)]
pub struct CacheTelemetry {
    overall: CacheCounters,
    by_tool: [CacheCounters; 3],
}

impl CacheTelemetry {
    /// The counters over all categories.
    pub closed spec fn overall(&self) -> CacheCounters {
        self.overall
    }

    /// The counters of `tool`.
    pub closed spec fn per_tool(&self, tool: CacheableTool) -> CacheCounters {
        self.by_tool@[spec_tool_index(tool) as int]
    }

    /// All counters at zero.
    pub fn new() -> (telemetry: CacheTelemetry)
        ensures
            telemetry.overall() == (CacheCounters { hits: 0, misses: 0, stores: 0, evictions: 0 }),
            forall|tool: CacheableTool| #[trigger]
                telemetry.per_tool(tool) == (CacheCounters {
                    hits: 0,
                    misses: 0,
                    stores: 0,
                    evictions: 0,
                }),
    {
        CacheTelemetry {
            overall: CacheCounters::new(),
            by_tool: [CacheCounters::new(), CacheCounters::new(), CacheCounters::new()],
        }
    }

    /// Counts one hit for `tool`.
    pub fn record_hit(&mut self, tool: CacheableTool)
        ensures
            final(self).overall() == (CacheCounters {
                hits: bumped(old(self).overall().hits),
                ..old(self).overall()
            }),
            final(self).per_tool(tool) == (CacheCounters {
                hits: bumped(old(self).per_tool(tool).hits),
                ..old(self).per_tool(tool)
            }),
            forall|other: CacheableTool|
                other != tool ==> #[trigger] final(self).per_tool(other) == old(self).per_tool(other),
    {
        self.overall.record_hit();
        let index = tool_index(tool);
        let mut counters = self.by_tool[index];
        counters.record_hit();
        self.by_tool[index] = counters;
    }

    /// Counts one miss for `tool`.
    pub fn record_miss(&mut self, tool: CacheableTool)
        ensures
            final(self).overall() == (CacheCounters {
                misses: bumped(old(self).overall().misses),
                ..old(self).overall()
            }),
            final(self).per_tool(tool) == (CacheCounters {
                misses: bumped(old(self).per_tool(tool).misses),
                ..old(self).per_tool(tool)
            }),
            forall|other: CacheableTool|
                other != tool ==> #[trigger] final(self).per_tool(other) == old(self).per_tool(other),
    {
        self.overall.record_miss();
        let index = tool_index(tool);
        let mut counters = self.by_tool[index];
        counters.record_miss();
        self.by_tool[index] = counters;
    }

    /// Counts one store for `tool`.
    pub fn record_store(&mut self, tool: CacheableTool)
        ensures
            final(self).overall() == (CacheCounters {
                stores: bumped(old(self).overall().stores),
                ..old(self).overall()
            }),
            final(self).per_tool(tool) == (CacheCounters {
                stores: bumped(old(self).per_tool(tool).stores),
                ..old(self).per_tool(tool)
            }),
            forall|other: CacheableTool|
                other != tool ==> #[trigger] final(self).per_tool(other) == old(self).per_tool(other),
    {
        self.overall.record_store();
        let index = tool_index(tool);
        let mut counters = self.by_tool[index];
        counters.record_store();
        self.by_tool[index] = counters;
    }

    /// Counts one eviction for `tool`.
    pub fn record_eviction(&mut self, tool: CacheableTool)
        ensures
            final(self).overall() == (CacheCounters {
                evictions: bumped(old(self).overall().evictions),
                ..old(self).overall()
            }),
            final(self).per_tool(tool) == (CacheCounters {
                evictions: bumped(old(self).per_tool(tool).evictions),
                ..old(self).per_tool(tool)
            }),
            forall|other: CacheableTool|
                other != tool ==> #[trigger] final(self).per_tool(other) == old(self).per_tool(other),
    {
        self.overall.record_eviction();
        let index = tool_index(tool);
        let mut counters = self.by_tool[index];
        counters.record_eviction();
        self.by_tool[index] = counters;
    }

    /// The counters as they stand, with the hit rates, the categories in the
    /// order read-file, list-dir, grep-files.
    pub fn snapshot(&self) -> (snapshot: CacheTelemetrySnapshot)
        ensures
            snapshot.hits == self.overall().hits,
            snapshot.misses == self.overall().misses,
            snapshot.stores == self.overall().stores,
            snapshot.evictions == self.overall().evictions,
            snapshot.hit_rate == spec_hit_rate(self.overall().hits, self.overall().misses),
            snapshot.by_tool@.len() == 3,
            forall|i: int|
                0 <= i < 3 ==> #[trigger] snapshot.by_tool@[i] == tool_snapshot(
                    tool_at(i),
                    self.per_tool(tool_at(i)),
                ),
    {
        let overall = self.overall.snapshot();
        let tools = CacheableTool::all();
        let mut by_tool: Vec<CacheToolTelemetrySnapshot> = Vec::with_capacity(3);
        let mut i: usize = 0;
        while i < 3
            invariant
                i <= 3,
                tools@ == seq![
                    CacheableTool::ReadFile,
                    CacheableTool::ListDir,
                    CacheableTool::GrepFiles,
                ],
                by_tool@.len() == i,
                forall|j: int|
                    0 <= j < i ==> #[trigger] by_tool@[j] == tool_snapshot(
                        tool_at(j),
                        self.per_tool(tool_at(j)),
                    ),
            decreases 3 - i,
        {
            let tool = tools[i];
            assert(tool == tool_at(i as int));
            let counters = self.by_tool[tool_index(tool)].snapshot();
            by_tool.push(
                CacheToolTelemetrySnapshot {
                    tool,
                    hits: counters.hits,
                    misses: counters.misses,
                    stores: counters.stores,
                    evictions: counters.evictions,
                    hit_rate: hit_rate(counters.hits, counters.misses),
                },
            );
            i += 1;
        }
        CacheTelemetrySnapshot {
            hits: overall.hits,
            misses: overall.misses,
            stores: overall.stores,
            evictions: overall.evictions,
            hit_rate: hit_rate(overall.hits, overall.misses),
            by_tool,
        }
    }
}

impl Default for CacheTelemetry {
    fn default() -> (telemetry: CacheTelemetry)
        ensures
            telemetry.overall() == (CacheCounters { hits: 0, misses: 0, stores: 0, evictions: 0 }),
            forall|tool: CacheableTool| #[trigger]
                telemetry.per_tool(tool) == (CacheCounters {
                    hits: 0,
                    misses: 0,
                    stores: 0,
                    evictions: 0,
                }),
    {
        CacheTelemetry::new()
    }
}

} // verus!
