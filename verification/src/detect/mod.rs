//! The detection engine ties the detectors together, tracks active temporary
//! blocks, honours a whitelist, and produces a single `Verdict` per event.

pub mod laws;
pub mod ratelimit;
pub mod runs;
pub mod scan;

use vstd::prelude::*;

use crate::config::Config;
use crate::event::NetEvent;
use crate::ip::IpAddr;
use crate::ipmap::{IpMap, IpSet};
use ratelimit::{RateLimiter, RateModel};
use scan::{ScanDetector, ScanModel};

verus! {

#[derive(Debug, Clone, Copy, PartialEq, Eq, Structural)]
pub enum BlockReason {
    RateLimit,
    PortScan,
    Manual,
    Blocklist,
}

#[derive(Debug, Clone, Copy, PartialEq, Eq, Structural)]
pub enum Verdict {
    Pass,
    Block { until_ms: u64, reason: BlockReason },
}

impl Verdict {
    pub fn is_block(&self) -> (r: bool)
        ensures
            r == (self is Block),
    {
        matches!(self, Verdict::Block { .. })
    }
}

/// A temporary block of one source.
#[derive(Debug, Clone, Copy, PartialEq, Eq, Structural)]
pub struct BlockEntry {
    pub until_ms: u64,
    pub reason: BlockReason,
}

pub struct Engine {
    cfg: Config,
    rl: RateLimiter,
    scan: ScanDetector,
    blocked: IpMap<BlockEntry>,
    whitelist: IpSet,
}

/// What the engine makes of one event.
pub enum Finding {
    /// The source is whitelisted.
    Trusted,
    /// The source is under an active block.
    Active(BlockEntry),
    /// The event trips the flood detector.
    Flood,
    /// The event trips the scan detector.
    Sweep,
    /// Nothing is wrong.
    Clear,
}

/// The state of the engine.
#[verifier::ext_equal]
pub struct EngineModel {
    pub cfg: Config,
    pub rl: RateModel,
    pub scan: ScanModel,
    pub blocked: Map<IpAddr, BlockEntry>,
    pub whitelist: Set<IpAddr>,
}

impl EngineModel {
    /// The detectors run on the engine's own configuration.
    pub open spec fn wf(self) -> bool {
        self.rl.cfg == self.cfg.ddos && self.scan.cfg == self.cfg.scan
    }

    /// Whether `ip` is under a block that is active at `now`.
    pub open spec fn active(self, ip: IpAddr, now: u64) -> bool {
        self.blocked.contains_key(ip) && now < self.blocked[ip].until_ms
    }

    /// `blocks` lists, each once, the blocks that are active at `now`.
    pub open spec fn lists_active(self, now: u64, blocks: Seq<(IpAddr, u64, BlockReason)>) -> bool {
        &&& forall|i: int, j: int| 0 <= i < j < blocks.len() ==> blocks[i].0 != blocks[j].0
        &&& forall|i: int|
            0 <= i < blocks.len() ==> {
                let (ip, until_ms, reason) = #[trigger] blocks[i];
                self.active(ip, now) && self.blocked[ip] == (BlockEntry { until_ms, reason })
            }
        &&& forall|ip: IpAddr| #[trigger]
            self.active(ip, now) ==> blocks.contains(
                (ip, self.blocked[ip].until_ms, self.blocked[ip].reason),
            )
    }

    /// The checks in the order in which they apply.
    pub open spec fn finding(self, ev: NetEvent) -> Finding {
        if self.whitelist.contains(ev.remote_ip) {
            Finding::Trusted
        } else if self.active(ev.remote_ip, ev.ts_ms) {
            Finding::Active(self.blocked[ev.remote_ip])
        } else if self.rl.trips(ev) {
            Finding::Flood
        } else if self.scan.trips(ev) {
            Finding::Sweep
        } else {
            Finding::Clear
        }
    }

    /// The block that a tripping event starts.
    pub open spec fn new_block(self, ev: NetEvent) -> Option<BlockEntry> {
        match self.finding(ev) {
            Finding::Flood => Some(
                BlockEntry {
                    until_ms: (ev.ts_ms + self.cfg.ddos.block_ms) as u64,
                    reason: BlockReason::RateLimit,
                },
            ),
            Finding::Sweep => Some(
                BlockEntry {
                    until_ms: (ev.ts_ms + self.cfg.scan.block_ms) as u64,
                    reason: BlockReason::PortScan,
                },
            ),
            _ => None,
        }
    }

    /// Whether the deadline of the block that the event starts, if it starts
    /// one, is a representable time.
    pub open spec fn deadline_fits(self, ev: NetEvent) -> bool {
        match self.finding(ev) {
            Finding::Flood => ev.ts_ms + self.cfg.ddos.block_ms <= u64::MAX,
            Finding::Sweep => ev.ts_ms + self.cfg.scan.block_ms <= u64::MAX,
            _ => true,
        }
    }

    /// The verdict on an event.
    pub open spec fn verdict(self, ev: NetEvent) -> Verdict {
        match self.finding(ev) {
            Finding::Active(b) => Verdict::Block { until_ms: b.until_ms, reason: b.reason },
            _ => match self.new_block(ev) {
                Some(b) => Verdict::Block { until_ms: b.until_ms, reason: b.reason },
                None => Verdict::Pass,
            },
        }
    }

    /// The state with the event recorded by the detectors that looked at it.
    pub open spec fn recorded(self, ev: NetEvent) -> EngineModel {
        match self.finding(ev) {
            Finding::Trusted | Finding::Active(_) => self,
            Finding::Flood => EngineModel { rl: self.rl.after(ev), ..self },
            Finding::Sweep | Finding::Clear => EngineModel {
                rl: self.rl.after(ev),
                scan: self.scan.after(ev),
                ..self
            },
        }
    }

    /// The state after the event.
    pub open spec fn after(self, ev: NetEvent) -> EngineModel {
        match self.new_block(ev) {
            Some(b) => EngineModel {
                blocked: self.blocked.insert(ev.remote_ip, b),
                ..self.recorded(ev)
            },
            None => self.recorded(ev),
        }
    }

    /// The state after housekeeping at `now`.
    pub open spec fn ticked(self, now: u64) -> EngineModel {
        EngineModel {
            rl: self.rl.cleaned(now),
            scan: self.scan.cleaned(now),
            blocked: Map::new(|ip: IpAddr| self.active(ip, now), |ip: IpAddr| self.blocked[ip]),
            ..self
        }
    }
}

impl View for Engine {
    type V = EngineModel;

    closed spec fn view(&self) -> EngineModel {
        EngineModel {
            cfg: self.cfg,
            rl: self.rl@,
            scan: self.scan@,
            blocked: self.blocked@,
            whitelist: self.whitelist@,
        }
    }
}

impl Engine {
    pub fn new(cfg: Config) -> (r: Self)
        ensures
            r@.wf(),
            r@ == (EngineModel {
                cfg,
                rl: RateModel { cfg: cfg.ddos, per_ip: Map::empty(), global: Seq::empty() },
                scan: ScanModel { cfg: cfg.scan, per_ip: Map::empty() },
                blocked: Map::empty(),
                whitelist: Set::empty(),
            }),
    {
        Engine {
            rl: RateLimiter::new(cfg.ddos),
            scan: ScanDetector::new(cfg.scan),
            cfg,
            blocked: IpMap::new(),
            whitelist: IpSet::new(),
        }
    }

    pub fn config(&self) -> (r: &Config)
        ensures
            *r == self@.cfg,
    {
        &self.cfg
    }

    /// Replaces the whole configuration at runtime.
    pub fn set_config(&mut self, cfg: Config)
        ensures
            final(self)@ == (EngineModel {
                cfg,
                rl: RateModel { cfg: cfg.ddos, ..old(self)@.rl },
                scan: ScanModel { cfg: cfg.scan, ..old(self)@.scan },
                ..old(self)@
            }),
            final(self)@.wf(),
    {
        self.rl.set_config(cfg.ddos);
        self.scan.set_config(cfg.scan);
        self.cfg = cfg;
    }

    pub fn set_ddos_enabled(&mut self, on: bool)
        ensures
            ({
                let ddos = crate::config::DdosConfig { enabled: on, ..old(self)@.cfg.ddos };
                final(self)@ == (EngineModel {
                    cfg: Config { ddos, ..old(self)@.cfg },
                    rl: RateModel { cfg: ddos, ..old(self)@.rl },
                    ..old(self)@
                })
            }),
            old(self)@.wf() ==> final(self)@.wf(),
    {
        self.cfg.ddos.enabled = on;
        self.rl.set_config(self.cfg.ddos);
    }

    pub fn set_scan_enabled(&mut self, on: bool)
        ensures
            ({
                let scan = crate::config::ScanConfig { enabled: on, ..old(self)@.cfg.scan };
                final(self)@ == (EngineModel {
                    cfg: Config { scan, ..old(self)@.cfg },
                    scan: ScanModel { cfg: scan, ..old(self)@.scan },
                    ..old(self)@
                })
            }),
            old(self)@.wf() ==> final(self)@.wf(),
    {
        self.cfg.scan.enabled = on;
        self.scan.set_config(self.cfg.scan);
    }

    pub fn whitelist_add(&mut self, ip: IpAddr)
        ensures
            final(self)@ == (EngineModel {
                whitelist: old(self)@.whitelist.insert(ip),
                ..old(self)@
            }),
    {
        self.whitelist.insert(ip);
    }

    pub fn whitelist_remove(&mut self, ip: &IpAddr)
        ensures
            final(self)@ == (EngineModel {
                whitelist: old(self)@.whitelist.remove(*ip),
                ..old(self)@
            }),
    {
        self.whitelist.remove(ip);
    }

    /// Blocks `ip` by hand until `until_ms`.
    pub fn block_manual(&mut self, ip: IpAddr, until_ms: u64)
        ensures
            final(self)@ == (EngineModel {
                blocked: old(self)@.blocked.insert(
                    ip,
                    BlockEntry { until_ms, reason: BlockReason::Manual },
                ),
                ..old(self)@
            }),
    {
        let _ = self.blocked.insert(ip, BlockEntry { until_ms, reason: BlockReason::Manual });
    }

    pub fn unblock(&mut self, ip: &IpAddr)
        ensures
            final(self)@ == (EngineModel {
                blocked: old(self)@.blocked.remove(*ip),
                ..old(self)@
            }),
    {
        let _ = self.blocked.remove(ip);
    }

    /// The blocks that are active at `now`, each once, in no particular order.
    pub fn active_blocks(&self, now: u64) -> (r: Vec<(IpAddr, u64, BlockReason)>)
        ensures
            self@.lists_active(now, r@),
    {
        let ips: Vec<IpAddr> = self.blocked.keys();
        let mut out: Vec<(IpAddr, u64, BlockReason)> = Vec::new();
        let mut i: usize = 0;
        while i < ips.len()
            invariant
                i <= ips@.len(),
                ips@.no_duplicates(),
                ips@.to_set() == self@.blocked.dom(),
                forall|k: int, j: int| 0 <= k < j < out@.len() ==> out@[k].0 != out@[j].0,
                forall|k: int|
                    0 <= k < out@.len() ==> {
                        let (ip, until_ms, reason) = #[trigger] out@[k];
                        &&& self@.active(ip, now)
                        &&& self@.blocked[ip] == (BlockEntry { until_ms, reason })
                        &&& ips@.take(i as int).contains(ip)
                    },
                forall|j: int|
                    0 <= j < i && self@.active(#[trigger] ips@[j], now) ==> out@.contains(
                        (
                            ips@[j],
                            self@.blocked[ips@[j]].until_ms,
                            self@.blocked[ips@[j]].reason,
                        ),
                    ),
            decreases ips@.len() - i,
        {
            let ip: IpAddr = ips[i];
            let ghost before = out@;
            proof {
                assert(ips@.to_set().contains(ip));
                assert(!ips@.take(i as int).contains(ip));
                assert(ips@.take(i + 1) =~= ips@.take(i as int).push(ip));
                assert forall|x: IpAddr| ips@.take(i as int).contains(x) implies ips@.take(
                    i + 1,
                ).contains(x) by {
                    let j = choose|j: int| 0 <= j < i && ips@.take(i as int)[j] == x;
                    assert(ips@.take(i + 1)[j] == x);
                }
                assert(ips@.take(i + 1)[i as int] == ip);
            }
            if let Some(b) = self.blocked.get(&ip) {
                if now < b.until_ms {
                    out.push((ip, b.until_ms, b.reason));
                    proof {
                        assert(out@[before.len() as int] == (ip, b.until_ms, b.reason));
                        assert forall|x: (IpAddr, u64, BlockReason)| before.contains(x) implies out@.contains(x) by {
                            let j = choose|j: int| 0 <= j < before.len() && before[j] == x;
                            assert(out@[j] == x);
                        }
                    }
                }
            }
            i = i + 1;
        }
        proof {
            assert forall|ip: IpAddr| #[trigger] self@.active(ip, now) implies out@.contains(
                (ip, self@.blocked[ip].until_ms, self@.blocked[ip].reason),
            ) by {
                assert(ips@.to_set().contains(ip));
                let j = choose|j: int| 0 <= j < ips@.len() && ips@[j] == ip;
                assert(self@.active(ips@[j], now));
            }
        }
        out
    }

    /// Inspects one event and decides, or returns `None` when the event starts
    /// a block whose deadline is no representable time; the event is recorded
    /// then, and no block starts.
    pub fn try_inspect(&mut self, ev: &NetEvent) -> (r: Option<Verdict>)
        requires
            old(self)@.wf(),
        ensures
            old(self)@.deadline_fits(*ev) ==> r == Some(old(self)@.verdict(*ev)) && final(self)@
                == old(self)@.after(*ev),
            !old(self)@.deadline_fits(*ev) ==> r is None && final(self)@ == old(self)@.recorded(*ev),
            final(self)@.wf(),
    {
        if self.whitelist.contains(&ev.remote_ip) {
            return Some(Verdict::Pass);
        }
        if let Some(b) = self.blocked.get(&ev.remote_ip) {
            if ev.ts_ms < b.until_ms {
                return Some(Verdict::Block { until_ms: b.until_ms, reason: b.reason });
            }
        }
        if self.rl.check(ev) {
            return match ev.ts_ms.checked_add(self.cfg.ddos.block_ms) {
                Some(until) => Some(
                    self.start_block(ev.remote_ip, until, BlockReason::RateLimit),
                ),
                None => None,
            };
        }
        if self.scan.check(ev) {
            return match ev.ts_ms.checked_add(self.cfg.scan.block_ms) {
                Some(until) => Some(self.start_block(ev.remote_ip, until, BlockReason::PortScan)),
                None => None,
            };
        }
        Some(Verdict::Pass)
    }

    fn start_block(&mut self, ip: IpAddr, until_ms: u64, reason: BlockReason) -> (r: Verdict)
        ensures
            r == (Verdict::Block { until_ms, reason }),
            final(self)@ == (EngineModel {
                blocked: old(self)@.blocked.insert(ip, BlockEntry { until_ms, reason }),
                ..old(self)@
            }),
    {
        let _ = self.blocked.insert(ip, BlockEntry { until_ms, reason });
        Verdict::Block { until_ms, reason }
    }

    /// The core call: inspects one event and decides.
    pub fn inspect(&mut self, ev: &NetEvent) -> (r: Verdict)
        requires
            old(self)@.wf(),
            old(self)@.deadline_fits(*ev),
        ensures
            r == old(self)@.verdict(*ev),
            final(self)@ == old(self)@.after(*ev),
            final(self)@.wf(),
    {
        match self.try_inspect(ev) {
            Some(v) => v,
            None => Verdict::Pass,
        }
    }

    /// Housekeeping: expires old blocks and prunes detector state.
    pub fn tick(&mut self, now: u64)
        requires
            old(self)@.wf(),
        ensures
            final(self)@ == old(self)@.ticked(now),
            final(self)@.wf(),
    {
        let ips: Vec<IpAddr> = self.blocked.keys();
        let ghost old_blocked = self.blocked@;
        let mut i: usize = 0;
        while i < ips.len()
            invariant
                i <= ips@.len(),
                ips@.no_duplicates(),
                ips@.to_set() == old_blocked.dom(),
                old_blocked == old(self)@.blocked,
                self.cfg == old(self).cfg,
                self.rl == old(self).rl,
                self.scan == old(self).scan,
                self.whitelist == old(self).whitelist,
                forall|ip: IpAddr| #[trigger]
                    self.blocked@.contains_key(ip) ==> old_blocked.contains_key(ip)
                        && self.blocked@[ip] == old_blocked[ip],
                forall|j: int| i <= j < ips@.len() ==> self.blocked@.contains_key(#[trigger] ips@[j]),
                forall|j: int|
                    0 <= j < i ==> (self.blocked@.contains_key(#[trigger] ips@[j]) <==> old(
                        self,
                    )@.active(ips@[j], now)),
            decreases ips@.len() - i,
        {
            let ip: IpAddr = ips[i];
            let expired: bool = match self.blocked.get(&ip) {
                Some(b) => now >= b.until_ms,
                None => false,
            };
            if expired {
                let _ = self.blocked.remove(&ip);
            }
            i = i + 1;
        }
        self.rl.cleanup(now);
        self.scan.cleanup(now);
        proof {
            assert forall|ip: IpAddr| old_blocked.contains_key(ip) implies exists|j: int|
                0 <= j < ips@.len() && ips@[j] == ip by {
                assert(ips@.to_set().contains(ip));
            }
            assert(self.blocked@ =~= old(self)@.ticked(now).blocked);
        }
    }
}

} // verus!
