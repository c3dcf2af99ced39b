//! Pool configuration.

use vstd::prelude::*;

verus! {

/// Limits and timing of one pool. All durations are in milliseconds.
#[derive(Clone, Copy, Debug, PartialEq, Eq, Structural)]
pub struct PoolConfig {
    /// Hard cap on live server instances for one language.
    pub max_instances_per_language: usize,
    /// How long an unreferenced instance may stay before it can be evicted.
    pub max_idle_time: u64,
    /// Longest wait for the initialization handshake of a new server.
    pub init_timeout: u64,
    /// Longest wait for a single request; used by the protocol client.
    pub request_timeout: u64,
    /// Number of launch attempts before a creation is given up.
    pub max_retries: usize,
}

impl PoolConfig {
    /// The recommended settings: four instances per language, five minutes
    /// of idle time, eight seconds to initialize, two seconds per request,
    /// and a single launch attempt.
    pub open spec fn recommended() -> PoolConfig {
        PoolConfig {
            max_instances_per_language: 4,
            max_idle_time: 300_000,
            init_timeout: 8_000,
            request_timeout: 2_000,
            max_retries: 1,
        }
    }
}

impl Default for PoolConfig {
    fn default() -> (config: Self)
        ensures
            config == PoolConfig::recommended(),
    {
        PoolConfig {
            max_instances_per_language: 4,
            max_idle_time: 300_000,
            init_timeout: 8_000,
            request_timeout: 2_000,
            max_retries: 1,
        }
    }
}

} // verus!
