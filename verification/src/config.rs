//! Runtime configuration: everything the user can toggle or tune.

use vstd::prelude::*;

verus! {

/// Flood protection (inbound). Host-based: it protects this machine's resources
/// against connection floods and lets it shed load. It cannot stop volumetric
/// attacks that saturate the uplink.
#[derive(Debug, Clone, Copy, PartialEq, Eq, Structural)]
pub struct DdosConfig {
    pub enabled: bool,
    /// Sliding window length in milliseconds.
    pub window_ms: u64,
    /// How many new inbound connections a single source may open per window
    /// before it is temporarily blocked.
    pub max_conns_per_window: u32,
    /// How long (ms) to keep a tripped source blocked.
    pub block_ms: u64,
    /// Cap across all sources per window (0 = disabled).
    pub global_max_conns_per_window: u32,
}

impl DdosConfig {
    pub open spec fn default_spec() -> Self {
        DdosConfig {
            enabled: true,
            window_ms: 1_000,
            max_conns_per_window: 40,
            block_ms: 60_000,
            global_max_conns_per_window: 0,
        }
    }
}

impl Default for DdosConfig {
    fn default() -> (r: Self)
        ensures
            r == Self::default_spec(),
    {
        DdosConfig {
            enabled: true,
            window_ms: 1_000,
            max_conns_per_window: 40,
            block_ms: 60_000,
            global_max_conns_per_window: 0,
        }
    }
}

/// Port-scan protection (inbound). Trips when a single source touches too many
/// distinct local ports inside a short window.
#[derive(Debug, Clone, Copy, PartialEq, Eq, Structural)]
pub struct ScanConfig {
    pub enabled: bool,
    pub window_ms: u64,
    /// Distinct local ports from one source within the window that flag a scan.
    pub distinct_ports_threshold: u32,
    pub block_ms: u64,
}

impl ScanConfig {
    pub open spec fn default_spec() -> Self {
        ScanConfig {
            enabled: true,
            window_ms: 3_000,
            distinct_ports_threshold: 15,
            block_ms: 300_000,
        }
    }
}

impl Default for ScanConfig {
    fn default() -> (r: Self)
        ensures
            r == Self::default_spec(),
    {
        ScanConfig {
            enabled: true,
            window_ms: 3_000,
            distinct_ports_threshold: 15,
            block_ms: 300_000,
        }
    }
}

#[derive(Debug, Clone, Copy, PartialEq, Eq, Structural)]
pub struct Config {
    pub ddos: DdosConfig,
    pub scan: ScanConfig,
}

impl Default for Config {
    fn default() -> (r: Self)
        ensures
            r.ddos == DdosConfig::default_spec(),
            r.scan == ScanConfig::default_spec(),
    {
        Config { ddos: DdosConfig::default(), scan: ScanConfig::default() }
    }
}

} // verus!
