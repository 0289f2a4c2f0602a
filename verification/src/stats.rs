//! Counters that a server reports to its clients.
use vstd::prelude::*;

verus! {

/// How the agents' local block windows have served them.
#[derive(Clone, Copy, PartialEq, Eq, Structural, Debug)]
pub struct CacheStats {
    pub lookups: u64,
    pub hits: u64,
    pub solid_misses: u64,
    pub rebuilds: u64,
    pub rebuild_probes: u64,
}

/// What a server counts.
#[derive(Clone, Copy, PartialEq, Eq, Structural, Debug)]
pub struct ServerStats {
    pub chunks_generated: usize,
    pub chunks_sent: usize,
    pub deltas: usize,
    pub agents: usize,
    pub npcs: usize,
    pub cache: CacheStats,
}

/// Where nothing was counted yet.
pub open spec fn no_stats() -> ServerStats {
    ServerStats {
        chunks_generated: 0,
        chunks_sent: 0,
        deltas: 0,
        agents: 0,
        npcs: 0,
        cache: CacheStats {
            lookups: 0,
            hits: 0,
            solid_misses: 0,
            rebuilds: 0,
            rebuild_probes: 0,
        },
    }
}

impl Default for ServerStats {
    /// Nothing was counted yet.
    fn default() -> (s: ServerStats)
        ensures
            s == no_stats(),
    {
        ServerStats {
            chunks_generated: 0,
            chunks_sent: 0,
            deltas: 0,
            agents: 0,
            npcs: 0,
            cache: CacheStats {
                lookups: 0,
                hits: 0,
                solid_misses: 0,
                rebuilds: 0,
                rebuild_probes: 0,
            },
        }
    }
}

} // verus!
