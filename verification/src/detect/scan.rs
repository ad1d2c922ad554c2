//! Port-scan detector. Signature: a single source touching many distinct local
//! ports within a short window. Hammering one port looks like a flood; fanning
//! out across many ports looks like a sweep.

use std::collections::{HashSet, VecDeque};

use vstd::prelude::*;

use crate::config::ScanConfig;
use crate::event::{Direction, NetEvent};
use crate::ip::IpAddr;
use crate::window;
use crate::window::{Probe, Windows};

verus! {

broadcast use vstd::std_specs::hash::group_hash_axioms;

pub struct ScanDetector {
    cfg: ScanConfig,
    per_ip: Windows<Probe>,
}

/// The state of a scan detector: the probes of each tracked source, oldest first.
#[verifier::ext_equal]
pub struct ScanModel {
    pub cfg: ScanConfig,
    pub per_ip: Map<IpAddr, Seq<Probe>>,
}

/// The distinct ports among a source's probes.
pub open spec fn ports(probes: Seq<Probe>) -> Set<u16> {
    probes.map_values(|p: Probe| p.port).to_set()
}

impl ScanModel {
    /// Whether the event is counted at all.
    pub open spec fn counted(self, ev: NetEvent) -> bool {
        self.cfg.enabled && ev.counts()
    }

    /// The probes of the event's source in the window that ends with it.
    pub open spec fn recent(self, ev: NetEvent) -> Seq<Probe> {
        window::extended(
            self.per_ip,
            ev.remote_ip,
            Probe { ts_ms: ev.ts_ms, port: ev.local_port },
            ev.ts_ms,
            self.cfg.window_ms,
        )
    }

    /// Whether the source has now touched more distinct ports than allowed.
    pub open spec fn trips(self, ev: NetEvent) -> bool {
        self.counted(ev) && ports(self.recent(ev)).len() > self.cfg.distinct_ports_threshold
    }

    /// The state once the event is recorded.
    pub open spec fn after(self, ev: NetEvent) -> ScanModel {
        if self.counted(ev) {
            ScanModel {
                cfg: self.cfg,
                per_ip: self.per_ip.insert(ev.remote_ip, self.recent(ev)),
            }
        } else {
            self
        }
    }

    /// The state after housekeeping at `now`.
    pub open spec fn cleaned(self, now: u64) -> ScanModel {
        ScanModel {
            cfg: self.cfg,
            per_ip: window::pruned(self.per_ip, now, self.cfg.window_ms),
        }
    }
}

/// The number of distinct ports among a source's probes.
fn count_ports(probes: &VecDeque<Probe>) -> (r: usize)
    ensures
        r == ports(probes@).len(),
{
    let mut distinct: HashSet<u16> = HashSet::new();
    let mut i: usize = 0;
    proof {
        assert(ports(probes@.take(0)) =~= Set::<u16>::empty());
    }
    while i < probes.len()
        invariant
            i <= probes@.len(),
            distinct@ == ports(probes@.take(i as int)),
        decreases probes@.len() - i,
    {
        let port: u16 = probes[i].port;
        distinct.insert(port);
        proof {
            let before = probes@.take(i as int).map_values(|p: Probe| p.port);
            let after = probes@.take(i + 1).map_values(|p: Probe| p.port);
            assert(after =~= before.push(port));
            before.lemma_push_to_set_commute(port);
        }
        i = i + 1;
    }
    proof {
        assert(probes@.take(probes@.len() as int) =~= probes@);
    }
    distinct.len()
}

impl View for ScanDetector {
    type V = ScanModel;

    closed spec fn view(&self) -> ScanModel {
        ScanModel { cfg: self.cfg, per_ip: self.per_ip@ }
    }
}

impl ScanDetector {
    pub fn new(cfg: ScanConfig) -> (r: Self)
        ensures
            r@ == (ScanModel { cfg, per_ip: Map::empty() }),
    {
        ScanDetector { cfg, per_ip: Windows::new() }
    }

    pub fn set_config(&mut self, cfg: ScanConfig)
        ensures
            final(self)@ == (ScanModel { cfg, ..old(self)@ }),
    {
        self.cfg = cfg;
    }

    /// Records the event and returns whether its source now looks like a scan.
    pub fn check(&mut self, ev: &NetEvent) -> (r: bool)
        ensures
            r == old(self)@.trips(*ev),
            final(self)@ == old(self)@.after(*ev),
    {
        if !self.cfg.enabled {
            return false;
        }
        if ev.direction != Direction::Inbound || !ev.is_new_conn {
            return false;
        }
        let now: u64 = ev.ts_ms;
        let win: u64 = self.cfg.window_ms;
        self.per_ip.record(ev.remote_ip, Probe { ts_ms: now, port: ev.local_port }, now, win);
        let distinct: usize = match self.per_ip.get(&ev.remote_ip) {
            Some(dq) => count_ports(dq),
            None => 0,
        };
        distinct as u64 > self.cfg.distinct_ports_threshold as u64
    }

    /// Housekeeping: drops sources with no recent activity.
    pub fn cleanup(&mut self, now: u64)
        ensures
            final(self)@ == old(self)@.cleaned(now),
    {
        let win: u64 = self.cfg.window_ms;
        self.per_ip.prune(now, win);
    }
}

} // verus!
