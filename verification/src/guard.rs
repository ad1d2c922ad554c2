//! The guard: the detection engine at work, with the addresses that the packet
//! filter blocks on its behalf, the metrics, and the talkers.

use vstd::prelude::*;
use vstd::string::*;

use crate::config::Config;
use crate::detect::{BlockEntry, BlockReason, Engine, EngineModel, Verdict};
use crate::event::NetEvent;
use crate::ip::IpAddr;
use crate::ipmap::IpMap;
use crate::metrics;
use crate::metrics::{BucketOut, Metrics, MetricsModel};
use crate::parse;
use crate::parse::parse_ip;
use crate::pipeline;
use crate::pipeline::{build_tick, Talkers, TalkersModel, TickPayload};
use crate::text;
use crate::window;
use crate::wfp;
use crate::wfp::{Firewall, Request};

verus! {

pub struct Guard {
    engine: Engine,
    metrics: Metrics,
    talkers: Talkers,
    /// What the packet filter blocks: the handle, and when the block ends.
    enforced: IpMap<(u64, u64)>,
}

#[verifier::ext_equal]
pub struct GuardModel {
    pub engine: EngineModel,
    pub metrics: MetricsModel,
    pub talkers: TalkersModel,
    pub enforced: Map<IpAddr, (u64, u64)>,
}

impl View for Guard {
    type V = GuardModel;

    closed spec fn view(&self) -> GuardModel {
        GuardModel {
            engine: self.engine@,
            metrics: self.metrics@,
            talkers: self.talkers@,
            enforced: self.enforced@,
        }
    }
}

impl GuardModel {
    pub open spec fn wf(self) -> bool {
        self.engine.wf() && self.metrics.wf()
    }

    /// Whether all numbers that the event leads to can be represented.
    pub open spec fn takes(self, ev: NetEvent) -> bool {
        self.metrics.has_room_spec(ev.ts_ms) && self.engine.deadline_fits(ev)
    }

    /// The state after an event was judged and counted.
    pub open spec fn judged(self, ev: NetEvent) -> GuardModel {
        GuardModel {
            engine: self.engine.after(ev),
            metrics: self.metrics.after(ev, self.engine.verdict(ev)),
            talkers: self.talkers.recorded(ev.remote_ip, ev.ts_ms),
            enforced: self.enforced,
        }
    }

    /// The state after an event that cannot be taken: at most the detectors have
    /// noted it.
    pub open spec fn declined(self, ev: NetEvent) -> GuardModel {
        if self.metrics.has_room_spec(ev.ts_ms) {
            GuardModel { engine: self.engine.recorded(ev), ..self }
        } else {
            self
        }
    }

    /// Whether the packet filter is to block the source of the event: its
    /// verdict is a block, and the source is not blocked there yet.
    pub open spec fn calls_for_block(self, ev: NetEvent) -> bool {
        self.engine.verdict(ev) is Block && !self.enforced.contains_key(ev.remote_ip)
    }

    /// The state with an address blocked by the packet filter.
    pub open spec fn enforcing(self, ip: IpAddr, handle: u64, until_ms: u64) -> GuardModel {
        GuardModel { enforced: self.enforced.insert(ip, (handle, until_ms)), ..self }
    }

    /// The handle under which the packet filter blocks an address.
    pub open spec fn handle_of(self, ip: IpAddr) -> Option<u64> {
        if self.enforced.contains_key(ip) {
            Some(self.enforced[ip].0)
        } else {
            None
        }
    }
}

/// What became of an event.
#[derive(Debug, Clone, Copy, PartialEq, Eq, Structural)]
pub struct Judgement {
    pub verdict: Verdict,
    /// When the block by the packet filter is to end, where one is to be
    /// installed.
    pub block_until: Option<u64>,
}

/// The judgement on an event.
pub open spec fn judgement_of(m: GuardModel, ev: NetEvent) -> Judgement {
    Judgement {
        verdict: m.engine.verdict(ev),
        block_until: match m.engine.verdict(ev) {
            Verdict::Block { until_ms, .. } if !m.enforced.contains_key(ev.remote_ip) => Some(
                until_ms,
            ),
            _ => None,
        },
    }
}

/// An event that was seen through.
pub struct Observation {
    pub verdict: Verdict,
    /// What to report where the packet filter failed.
    pub report: Option<String>,
}

/// When a manual block ends: after at least one minute, and at the end of time
/// at the latest.
pub open spec fn manual_end(minutes: u64, now: u64) -> u64 {
    let m: int = if minutes == 0 {
        1
    } else {
        minutes as int
    };
    let ms = if m * 60_000 > u64::MAX {
        u64::MAX as int
    } else {
        m * 60_000
    };
    if now + ms > u64::MAX {
        u64::MAX
    } else {
        (now + ms) as u64
    }
}

/// When a manual block ends.
pub fn manual_block_end(minutes: u64, now: u64) -> (r: u64)
    ensures
        r == manual_end(minutes, now),
{
    let m: u64 = if minutes == 0 {
        1
    } else {
        minutes
    };
    let ms: u64 = match m.checked_mul(60_000) {
        Some(x) => x,
        None => u64::MAX,
    };
    now.saturating_add(ms)
}

impl Guard {
    /// A guard that has seen nothing: one bucket a second for three minutes, and
    /// talkers of the last minute.
    pub fn new(cfg: Config) -> (r: Self)
        ensures
            r@.wf(),
            r@.engine.cfg == cfg,
            r@.engine.blocked == Map::<IpAddr, BlockEntry>::empty(),
            r@.engine.whitelist == Set::<IpAddr>::empty(),
            r@.engine.rl.per_ip == Map::<IpAddr, Seq<u64>>::empty(),
            r@.engine.rl.global == Seq::<u64>::empty(),
            r@.engine.scan.per_ip == Map::<IpAddr, Seq<window::Probe>>::empty(),
            r@.metrics == (MetricsModel { bucket_ms: 1000, capacity: 180, buckets: Seq::empty() }),
            r@.talkers == (TalkersModel { window_ms: 60_000, hits: Map::empty() }),
            r@.enforced == Map::<IpAddr, (u64, u64)>::empty(),
    {
        Guard {
            engine: Engine::new(cfg),
            metrics: Metrics::new(1000, 180),
            talkers: Talkers::new(60_000),
            enforced: IpMap::new(),
        }
    }

    pub fn config(&self) -> (r: &Config)
        ensures
            *r == self@.engine.cfg,
    {
        self.engine.config()
    }

    /// The buckets for the charts, oldest first.
    pub fn series(&self) -> (r: Vec<BucketOut>)
        requires
            self@.wf(),
        ensures
            r@ == self@.metrics.buckets.map_values(|b: metrics::BucketModel| b.shown()),
    {
        self.metrics.series()
    }

    /// Turns a protection module on or off; a name that is none changes nothing.
    pub fn set_protection(&mut self, module: &str, enabled: bool)
        requires
            old(self)@.wf(),
        ensures
            final(self)@.wf(),
            ({
                let m = old(self)@.engine;
                let cfg = if module@ == "ddos"@ {
                    Config {
                        ddos: crate::config::DdosConfig { enabled, ..m.cfg.ddos },
                        ..m.cfg
                    }
                } else if module@ == "scan"@ {
                    Config {
                        scan: crate::config::ScanConfig { enabled, ..m.cfg.scan },
                        ..m.cfg
                    }
                } else {
                    m.cfg
                };
                final(self)@ == (GuardModel {
                    engine: EngineModel {
                        cfg,
                        rl: crate::detect::ratelimit::RateModel { cfg: cfg.ddos, ..m.rl },
                        scan: crate::detect::scan::ScanModel { cfg: cfg.scan, ..m.scan },
                        ..m
                    },
                    ..old(self)@
                })
            }),
    {
        if text::same_text(module, "ddos") {
            self.engine.set_ddos_enabled(enabled);
        } else if text::same_text(module, "scan") {
            proof {
                reveal_strlit("ddos");
                reveal_strlit("scan");
            }
            self.engine.set_scan_enabled(enabled);
        }
    }

    /// Replaces the whole configuration.
    pub fn set_config(&mut self, cfg: Config)
        requires
            old(self)@.wf(),
        ensures
            final(self)@.wf(),
            final(self)@ == (GuardModel {
                engine: EngineModel {
                    cfg,
                    rl: crate::detect::ratelimit::RateModel {
                        cfg: cfg.ddos,
                        ..old(self)@.engine.rl
                    },
                    scan: crate::detect::scan::ScanModel {
                        cfg: cfg.scan,
                        ..old(self)@.engine.scan
                    },
                    ..old(self)@.engine
                },
                ..old(self)@
            }),
    {
        self.engine.set_config(cfg);
    }

    /// Judges an event, first step: it is judged and counted. `None` means that
    /// a number it leads to cannot be represented; no block starts then, and
    /// nothing is counted.
    pub fn begin_event(&mut self, ev: &NetEvent) -> (r: Option<Judgement>)
        requires
            old(self)@.wf(),
        ensures
            final(self)@.wf(),
            old(self)@.takes(*ev) ==> r == Some(judgement_of(old(self)@, *ev)) && final(self)@
                == old(self)@.judged(*ev),
            !old(self)@.takes(*ev) ==> r is None && final(self)@ == old(self)@.declined(*ev),
    {
        if !self.metrics.has_room(ev.ts_ms) {
            return None;
        }
        let verdict: Verdict = match self.engine.try_inspect(ev) {
            Some(v) => v,
            None => {
                return None;
            },
        };
        let block_until: Option<u64> = match verdict {
            Verdict::Block { until_ms, .. } => if self.enforced.contains_key(&ev.remote_ip) {
                None
            } else {
                Some(until_ms)
            },
            Verdict::Pass => None,
        };
        self.metrics.record(ev, &verdict);
        self.talkers.record(ev.remote_ip, ev.ts_ms);
        Some(Judgement { verdict, block_until })
    }

    /// Judges an event, second step: takes note that the packet filter blocks
    /// its source.
    pub fn finish_event(&mut self, ip: IpAddr, handle: u64, until_ms: u64)
        requires
            old(self)@.wf(),
        ensures
            final(self)@ == old(self)@.enforcing(ip, handle, until_ms),
            final(self)@.wf(),
    {
        let _ = self.enforced.insert(ip, (handle, until_ms));
    }

    /// Judges an event and has its source blocked where that is called for: the
    /// packet filter is asked once, and not at all otherwise. `None` means that a
    /// number it leads to cannot be represented.
    pub fn observe<F: Firewall>(&mut self, fw: &mut F, ev: &NetEvent) -> (r: Option<Observation>)
        requires
            old(self)@.wf(),
        ensures
            final(self)@.wf(),
            match r {
                None => !old(self)@.takes(*ev) && final(self)@ == old(self)@.declined(*ev)
                    && final(fw).asked() == old(fw).asked(),
                Some(o) => {
                    let m = old(self)@;
                    let asked = old(fw).asked();
                    &&& m.takes(*ev)
                    &&& o.verdict == m.engine.verdict(*ev)
                    &&& o.report matches Some(t) ==> m.calls_for_block(*ev) && final(self)@
                        == m.judged(*ev) && exists|e: Seq<char>|
                        t@ == #[trigger] block_failed_text(ev.remote_ip, e) && final(fw).asked()
                            == asked.push(Request::BlockIp { ip: ev.remote_ip, reply: Err(e) })
                    &&& o.report is None && m.calls_for_block(*ev) ==> exists|h: u64|
                        final(self)@ == #[trigger] m.judged(*ev).enforcing(
                            ev.remote_ip,
                            h,
                            m.engine.verdict(*ev)->until_ms,
                        ) && final(fw).asked() == asked.push(
                            Request::BlockIp { ip: ev.remote_ip, reply: Ok(h) },
                        )
                    &&& !m.calls_for_block(*ev) ==> final(self)@ == m.judged(*ev)
                        && final(fw).asked() == asked
                },
            },
    {
        let judgement: Judgement = match self.begin_event(ev) {
            Some(j) => j,
            None => {
                return None;
            },
        };
        let mut report: Option<String> = None;
        if let Some(until_ms) = judgement.block_until {
            match fw.block_ip(ev.remote_ip) {
                Ok(handle) => self.finish_event(ev.remote_ip, handle, until_ms),
                Err(error) => {
                    report = Some(block_failed(ev.remote_ip, error.as_str()));
                },
            }
        }
        Some(Observation { verdict: judgement.verdict, report })
    }

    /// Blocks an address by hand, first step: the address, and when the block
    /// ends. The packet filter is to block the address.
    pub fn begin_manual_block(&self, ip: &str, minutes: u64, now: u64) -> (r: Result<
        (IpAddr, u64),
        String,
    >)
        ensures
            match r {
                Ok((a, until)) => parse::ip_of(ip@) == Some(a) && until == manual_end(minutes, now),
                Err(e) => parse::ip_of(ip@) is None && e@ == "invalid IP"@,
            },
    {
        match parse_ip(ip) {
            Some(a) => Ok((a, manual_block_end(minutes, now))),
            None => Err("invalid IP".to_owned()),
        }
    }

    /// Blocks an address by hand, second step. Hands out the handle of the
    /// block that was there, for it to be lifted.
    pub fn finish_manual_block(&mut self, ip: IpAddr, until_ms: u64, handle: u64) -> (r: Option<u64>)
        requires
            old(self)@.wf(),
        ensures
            final(self)@.wf(),
            final(self)@ == old(self)@.hand_blocked(ip, handle, until_ms),
            r == old(self)@.handle_of(ip),
    {
        let previous: Option<(u64, u64)> = self.enforced.insert(ip, (handle, until_ms));
        self.engine.block_manual(ip, until_ms);
        match previous {
            Some((h, _)) => Some(h),
            None => None,
        }
    }

    /// Blocks an address by hand for a number of minutes. A text that is no
    /// address does not reach the packet filter; where the packet filter replies
    /// with an error, that is the error, and nothing changes. The block that was
    /// there is lifted only after the new one is in place.
    pub fn block_remote_ip<F: Firewall>(&mut self, fw: &mut F, ip: &str, minutes: u64, now: u64) -> (r:
        Result<(), String>)
        requires
            old(self)@.wf(),
        ensures
            final(self)@.wf(),
            match parse::ip_of(ip@) {
                None => r matches Err(e) && e@ == "invalid IP"@ && final(self)@ == old(self)@
                    && final(fw).asked() == old(fw).asked(),
                Some(a) => match r {
                    Ok(_) => exists|h: u64|
                        final(self)@ == #[trigger] old(self)@.hand_blocked(
                            a,
                            h,
                            manual_end(minutes, now),
                        ) && final(fw).asked() == wfp::lifting(
                            old(fw).asked().push(Request::BlockIp { ip: a, reply: Ok(h) }),
                            old(self)@.handle_of(a),
                        ),
                    Err(e) => final(self)@ == old(self)@ && final(fw).asked() == old(
                        fw,
                    ).asked().push(Request::BlockIp { ip: a, reply: Err(e@) }),
                },
            },
    {
        let (addr, until_ms) = match self.begin_manual_block(ip, minutes, now) {
            Ok(x) => x,
            Err(e) => {
                return Err(e);
            },
        };
        let handle: u64 = match fw.block_ip(addr) {
            Ok(h) => h,
            Err(e) => {
                return Err(e);
            },
        };
        if let Some(previous) = self.finish_manual_block(addr, until_ms, handle) {
            let _ = fw.unblock(previous);
        }
        Ok(())
    }

    /// Trusts an address.
    pub fn whitelist_add(&mut self, ip: &str) -> (r: Result<(), String>)
        requires
            old(self)@.wf(),
        ensures
            final(self)@.wf(),
            match parse::ip_of(ip@) {
                None => r matches Err(e) && e@ == "invalid IP"@ && final(self)@ == old(self)@,
                Some(a) => r is Ok && final(self)@ == (GuardModel {
                    engine: EngineModel {
                        whitelist: old(self)@.engine.whitelist.insert(a),
                        ..old(self)@.engine
                    },
                    ..old(self)@
                }),
            },
    {
        match parse_ip(ip) {
            Some(a) => {
                self.engine.whitelist_add(a);
                Ok(())
            },
            None => Err("invalid IP".to_owned()),
        }
    }

    /// Lifts the block of an address, by the packet filter too where it blocks
    /// the address.
    pub fn unblock_ip<F: Firewall>(&mut self, fw: &mut F, ip: &str) -> (r: Result<(), String>)
        requires
            old(self)@.wf(),
        ensures
            final(self)@.wf(),
            match parse::ip_of(ip@) {
                None => r matches Err(e) && e@ == "invalid IP"@ && final(self)@ == old(self)@
                    && final(fw).asked() == old(fw).asked(),
                Some(a) => r is Ok && final(self)@ == old(self)@.lifted(a) && final(fw).asked()
                    == wfp::lifting(old(fw).asked(), old(self)@.handle_of(a)),
            },
    {
        match parse_ip(ip) {
            Some(a) => {
                self.engine.unblock(&a);
                if let Some((handle, _)) = self.enforced.remove(&a) {
                    let _ = fw.unblock(handle);
                }
                Ok(())
            },
            None => Err("invalid IP".to_owned()),
        }
    }

    /// Takes out the blocks that have ended. Hands out their handles, for them
    /// to be lifted.
    pub fn expire(&mut self, now: u64) -> (r: Vec<u64>)
        requires
            old(self)@.wf(),
        ensures
            final(self)@.wf(),
            final(self)@ == (GuardModel {
                enforced: still_enforced(old(self)@.enforced, now),
                ..old(self)@
            }),
            exists|ips: Seq<IpAddr>| #[trigger]
                lists_ended(ips, old(self)@.enforced, now) && r@ == ips.map_values(
                    |ip: IpAddr| old(self)@.enforced[ip].0,
                ),
    {
        let ghost before = self.enforced@;
        let ips: Vec<IpAddr> = self.enforced.keys();
        let ghost mut ended: Seq<IpAddr> = Seq::empty();
        let mut out: Vec<u64> = Vec::new();
        let mut i: usize = 0;
        while i < ips.len()
            invariant
                i <= ips@.len(),
                ips@.no_duplicates(),
                ips@.to_set() == before.dom(),
                before == old(self)@.enforced,
                self.engine == old(self).engine,
                self.metrics == old(self).metrics,
                self.talkers == old(self).talkers,
                forall|ip: IpAddr| #[trigger]
                    self.enforced@.contains_key(ip) ==> before.contains_key(ip)
                        && self.enforced@[ip] == before[ip],
                forall|j: int|
                    i <= j < ips@.len() ==> self.enforced@.contains_key(#[trigger] ips@[j]),
                forall|j: int|
                    0 <= j < i ==> (self.enforced@.contains_key(#[trigger] ips@[j]) <==> now
                        < before[ips@[j]].1),
                ended.no_duplicates(),
                forall|k: int|
                    0 <= k < ended.len() ==> before.contains_key(#[trigger] ended[k]) && now
                        >= before[ended[k]].1 && !self.enforced@.contains_key(ended[k]),
                forall|j: int|
                    0 <= j < i && now >= before[#[trigger] ips@[j]].1 ==> ended.contains(ips@[j]),
                out@ == ended.map_values(|ip: IpAddr| before[ip].0),
            decreases ips@.len() - i,
        {
            let ip: IpAddr = ips[i];
            let ended_now: Option<u64> = match self.enforced.get(&ip) {
                Some(e) => if now >= e.1 {
                    Some(e.0)
                } else {
                    None
                },
                None => None,
            };
            if let Some(handle) = ended_now {
                let ghost previous = ended;
                let _ = self.enforced.remove(&ip);
                out.push(handle);
                proof {
                    ended = ended.push(ip);
                    assert(out@ =~= ended.map_values(|ip: IpAddr| before[ip].0));
                    assert(ended[previous.len() as int] == ip);
                    assert forall|x: IpAddr| previous.contains(x) implies ended.contains(x) by {
                        let k = choose|k: int| 0 <= k < previous.len() && previous[k] == x;
                        assert(ended[k] == x);
                    }
                }
            }
            i = i + 1;
        }
        proof {
            assert forall|ip: IpAddr| before.contains_key(ip) implies exists|j: int|
                0 <= j < ips@.len() && ips@[j] == ip by {
                assert(ips@.to_set().contains(ip));
            }
            assert(self.enforced@ =~= still_enforced(before, now));
            assert(lists_ended(ended, before, now));
        }
        out
    }

    /// Takes out the blocks that have ended, and has the packet filter lift each
    /// of them.
    pub fn lift_ended<F: Firewall>(&mut self, fw: &mut F, now: u64)
        requires
            old(self)@.wf(),
        ensures
            final(self)@.wf(),
            final(self)@ == (GuardModel {
                enforced: still_enforced(old(self)@.enforced, now),
                ..old(self)@
            }),
            exists|ips: Seq<IpAddr>| #[trigger]
                lists_ended(ips, old(self)@.enforced, now) && final(fw).asked() == old(fw).asked()
                    + ips.map_values(
                    |ip: IpAddr| Request::Unblock { handle: old(self)@.enforced[ip].0 },
                ),
    {
        let ghost asked = fw.asked();
        let handles: Vec<u64> = self.expire(now);
        let ghost lifts = handles@.map_values(|handle: u64| Request::Unblock { handle });
        let mut i: usize = 0;
        proof {
            assert(asked + lifts.take(0) =~= asked);
        }
        while i < handles.len()
            invariant
                i <= handles@.len(),
                lifts == handles@.map_values(|handle: u64| Request::Unblock { handle }),
                fw.asked() == asked + lifts.take(i as int),
            decreases handles@.len() - i,
        {
            let _ = fw.unblock(handles[i]);
            proof {
                assert(asked + lifts.take(i + 1) =~= (asked + lifts.take(i as int)).push(
                    lifts[i as int],
                ));
            }
            i = i + 1;
        }
        proof {
            let before = old(self)@.enforced;
            let ips = choose|ips: Seq<IpAddr>| #[trigger]
                lists_ended(ips, before, now) && handles@ == ips.map_values(
                    |ip: IpAddr| before[ip].0,
                );
            assert(lifts.take(i as int) =~= ips.map_values(
                |ip: IpAddr| Request::Unblock { handle: before[ip].0 },
            ));
        }
    }

    /// Housekeeping at `now`, and what the dashboard shows of it.
    pub fn tick(&mut self, now: u64) -> (r: TickPayload)
        requires
            old(self)@.wf(),
        ensures
            final(self)@.wf(),
            final(self)@ == old(self)@.tidied(now),
            shows_tick(r, old(self)@.tidied(now), now),
    {
        self.engine.tick(now);
        let blocks: Vec<(IpAddr, u64, BlockReason)> = self.engine.active_blocks(now);
        self.talkers.cleanup(now);
        let latest: Option<BucketOut> = self.metrics.latest();
        let r: TickPayload = build_tick(latest.as_ref(), blocks.as_slice(), &self.talkers, now);
        proof {
            assert(lists_blocks(blocks@, self@.engine, now));
        }
        r
    }
}

/// The report of an address that the packet filter could not block.
pub open spec fn block_failed_text(ip: IpAddr, error: Seq<char>) -> Seq<char> {
    "block_ip failed for "@ + ip.text() + ": "@ + error
}

fn block_failed(ip: IpAddr, error: &str) -> (r: String)
    ensures
        r@ == block_failed_text(ip, error@),
{
    let mut s: String = "block_ip failed for ".to_owned();
    let t: String = ip.to_string();
    s.append(t.as_str());
    s.append(": ");
    s.append(error);
    s
}

/// What the packet filter still blocks at `now`.
pub open spec fn still_enforced(enforced: Map<IpAddr, (u64, u64)>, now: u64) -> Map<
    IpAddr,
    (u64, u64),
> {
    Map::new(
        |ip: IpAddr| enforced.contains_key(ip) && now < enforced[ip].1,
        |ip: IpAddr| enforced[ip],
    )
}

/// `ips` lists, each once, the addresses whose block has ended at `now`.
pub open spec fn lists_ended(ips: Seq<IpAddr>, enforced: Map<IpAddr, (u64, u64)>, now: u64) -> bool {
    &&& ips.no_duplicates()
    &&& forall|ip: IpAddr| #[trigger]
        ips.contains(ip) <==> enforced.contains_key(ip) && now >= enforced[ip].1
}

/// `blocks` lists, each once, the blocks that are active at `now`.
pub open spec fn lists_blocks(
    blocks: Seq<(IpAddr, u64, BlockReason)>,
    m: EngineModel,
    now: u64,
) -> bool {
    &&& forall|i: int, j: int| 0 <= i < j < blocks.len() ==> blocks[i].0 != blocks[j].0
    &&& forall|i: int|
        0 <= i < blocks.len() ==> {
            let (ip, until_ms, reason) = #[trigger] blocks[i];
            m.active(ip, now) && m.blocked[ip] == (BlockEntry { until_ms, reason })
        }
    &&& forall|ip: IpAddr| #[trigger]
        m.active(ip, now) ==> blocks.contains((ip, m.blocked[ip].until_ms, m.blocked[ip].reason))
}

/// `p` shows the state at `now`: the newest bucket, the active blocks, and the
/// talkers, with those flagged that are blocked.
pub open spec fn shows_tick(p: TickPayload, m: GuardModel, now: u64) -> bool {
    let b = if m.metrics.buckets.len() > 0 {
        m.metrics.buckets.last().shown()
    } else {
        BucketOut::zero()
    };
    &&& p.inbound == b.inbound
    &&& p.outbound == b.outbound
    &&& p.flood == b.ratelimit_blocks
    &&& p.scan == b.scan_blocks
    &&& p.unique == b.unique_ips
    &&& p.drop == pipeline::drop_percent_spec(b.blocked, b.events)
    &&& exists|blocks: Seq<(IpAddr, u64, BlockReason)>| #[trigger]
        lists_blocks(blocks, m.engine, now) && pipeline::shows_blocks(p.blocks@, blocks, now)
            && m.talkers.is_top(
            p.talkers@,
            7,
            blocks.map_values(|e: (IpAddr, u64, BlockReason)| e.0),
        )
}

impl GuardModel {
    /// The state with an address blocked by hand.
    pub open spec fn hand_blocked(self, ip: IpAddr, handle: u64, until_ms: u64) -> GuardModel {
        GuardModel {
            engine: EngineModel {
                blocked: self.engine.blocked.insert(
                    ip,
                    BlockEntry { until_ms, reason: BlockReason::Manual },
                ),
                ..self.engine
            },
            enforced: self.enforced.insert(ip, (handle, until_ms)),
            ..self
        }
    }

    /// The state with the block of an address lifted.
    pub open spec fn lifted(self, ip: IpAddr) -> GuardModel {
        GuardModel {
            engine: EngineModel { blocked: self.engine.blocked.remove(ip), ..self.engine },
            enforced: self.enforced.remove(ip),
            ..self
        }
    }

    /// The state after housekeeping at `now`.
    pub open spec fn tidied(self, now: u64) -> GuardModel {
        GuardModel {
            engine: self.engine.ticked(now),
            talkers: self.talkers.cleaned(now),
            ..self
        }
    }
}

// What the guard promises.

/// An address that was blocked by hand is blocked by the engine and by the
/// packet filter until the same time, unless it is trusted.
pub proof fn hand_block_holds(m: GuardModel, ip: IpAddr, handle: u64, until_ms: u64, ev: NetEvent)
    requires
        ev.remote_ip == ip,
        ev.ts_ms < until_ms,
        !m.engine.whitelist.contains(ip),
    ensures
        ({
            let n = m.hand_blocked(ip, handle, until_ms);
            &&& n.engine.verdict(ev) == (Verdict::Block { until_ms, reason: BlockReason::Manual })
            &&& n.enforced[ip] == (handle, until_ms)
            &&& !n.calls_for_block(ev)
        }),
{
}

/// Lifting a block undoes it: the engine has no block for the address any more,
/// nor has the packet filter, and other addresses are untouched.
pub proof fn lifting_undoes_a_block(
    m: GuardModel,
    ip: IpAddr,
    handle: u64,
    until_ms: u64,
    other: IpAddr,
)
    ensures
        ({
            let n = m.hand_blocked(ip, handle, until_ms).lifted(ip);
            &&& !n.engine.blocked.contains_key(ip)
            &&& n.handle_of(ip) is None
            &&& other != ip ==> n.engine.blocked.contains_key(other)
                == m.engine.blocked.contains_key(other) && n.handle_of(other) == m.handle_of(other)
        }),
{
}

/// The packet filter is asked to block a source once: while it blocks the
/// source, further events of it call for nothing.
pub proof fn source_is_blocked_once(
    m: GuardModel,
    ev: NetEvent,
    handle: u64,
    until_ms: u64,
    next: NetEvent,
)
    requires
        next.remote_ip == ev.remote_ip,
    ensures
        !m.enforcing(ev.remote_ip, handle, until_ms).calls_for_block(next),
{
}

/// After expiry at `now` the packet filter blocks only what lasts beyond `now`,
/// and what lasts is not touched.
pub proof fn expiry_takes_exactly_the_ended(m: Map<IpAddr, (u64, u64)>, now: u64, ip: IpAddr)
    ensures
        still_enforced(m, now).contains_key(ip) <==> m.contains_key(ip) && now < m[ip].1,
        still_enforced(m, now).contains_key(ip) ==> still_enforced(m, now)[ip] == m[ip],
        still_enforced(still_enforced(m, now), now) == still_enforced(m, now),
{
    assert(still_enforced(still_enforced(m, now), now) =~= still_enforced(m, now));
}

/// A manual block lasts at least a minute, unless time ends first.
pub proof fn manual_block_lasts_a_minute(minutes: u64, now: u64)
    ensures
        manual_end(minutes, now) >= now,
        manual_end(minutes, now) == u64::MAX || manual_end(minutes, now) >= now + 60_000,
{
}

} // verus!
