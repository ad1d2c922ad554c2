//! Flood detector: per-source sliding-window rate limiting, plus an optional
//! global cap for load shedding.

use std::collections::VecDeque;

use vstd::prelude::*;

use crate::config::DdosConfig;
use crate::event::{Direction, NetEvent};
use crate::ip::IpAddr;
use crate::window;
use crate::window::Windows;

verus! {

pub struct RateLimiter {
    cfg: DdosConfig,
    per_ip: Windows<u64>,
    global: VecDeque<u64>,
}

/// The state of a rate limiter: for each tracked source, and for all sources
/// together, the stamps of the counted attempts, oldest first.
#[verifier::ext_equal]
pub struct RateModel {
    pub cfg: DdosConfig,
    pub per_ip: Map<IpAddr, Seq<u64>>,
    pub global: Seq<u64>,
}

impl RateModel {
    /// Whether the event is counted at all.
    pub open spec fn counted(self, ev: NetEvent) -> bool {
        self.cfg.enabled && ev.counts()
    }

    /// The attempts of the event's source in the window that ends with it.
    pub open spec fn recent(self, ev: NetEvent) -> Seq<u64> {
        window::extended(self.per_ip, ev.remote_ip, ev.ts_ms, ev.ts_ms, self.cfg.window_ms)
    }

    /// The attempts of all sources in the window that ends with the event.
    pub open spec fn recent_global(self, ev: NetEvent) -> Seq<u64> {
        window::live(self.global.push(ev.ts_ms), ev.ts_ms, self.cfg.window_ms)
    }

    /// Whether the event exceeds one of the caps.
    pub open spec fn trips(self, ev: NetEvent) -> bool {
        self.counted(ev) && (self.recent(ev).len() > self.cfg.max_conns_per_window || (
        self.cfg.global_max_conns_per_window > 0 && self.recent_global(ev).len()
            > self.cfg.global_max_conns_per_window))
    }

    /// The state once the event is recorded.
    pub open spec fn after(self, ev: NetEvent) -> RateModel {
        if self.counted(ev) {
            RateModel {
                cfg: self.cfg,
                per_ip: self.per_ip.insert(ev.remote_ip, self.recent(ev)),
                global: if self.cfg.global_max_conns_per_window > 0 {
                    self.recent_global(ev)
                } else {
                    self.global
                },
            }
        } else {
            self
        }
    }

    /// The state after housekeeping at `now`.
    pub open spec fn cleaned(self, now: u64) -> RateModel {
        RateModel {
            cfg: self.cfg,
            per_ip: window::pruned(self.per_ip, now, self.cfg.window_ms),
            global: window::live(self.global, now, self.cfg.window_ms),
        }
    }
}

impl View for RateLimiter {
    type V = RateModel;

    closed spec fn view(&self) -> RateModel {
        RateModel { cfg: self.cfg, per_ip: self.per_ip@, global: self.global@ }
    }
}

impl RateLimiter {
    pub fn new(cfg: DdosConfig) -> (r: Self)
        ensures
            r@ == (RateModel { cfg, per_ip: Map::empty(), global: Seq::empty() }),
    {
        RateLimiter { cfg, per_ip: Windows::new(), global: VecDeque::new() }
    }

    pub fn set_config(&mut self, cfg: DdosConfig)
        ensures
            final(self)@ == (RateModel { cfg, ..old(self)@ }),
    {
        self.cfg = cfg;
    }

    /// Records the event and returns whether it trips the flood threshold.
    pub fn check(&mut self, ev: &NetEvent) -> (r: bool)
        ensures
            r == old(self)@.trips(*ev),
            final(self)@ == old(self)@.after(*ev),
    {
        if !self.cfg.enabled {
            return false;
        }
        if ev.direction != Direction::Inbound || !ev.is_new_conn {
            return false;
        }
        let now: u64 = ev.ts_ms;
        let win: u64 = self.cfg.window_ms;
        self.per_ip.record(ev.remote_ip, now, now, win);
        let count: usize = match self.per_ip.get(&ev.remote_ip) {
            Some(dq) => dq.len(),
            None => 0,
        };
        let per_ip_trip: bool = count as u64 > self.cfg.max_conns_per_window as u64;
        let mut global_trip: bool = false;
        if self.cfg.global_max_conns_per_window > 0 {
            self.global.push_back(now);
            window::trim(&mut self.global, now, win);
            global_trip = self.global.len() as u64 > self.cfg.global_max_conns_per_window as u64;
        }
        per_ip_trip || global_trip
    }

    /// Housekeeping: drops sources with no recent activity, so that memory does
    /// not grow without bound under a spoofed-source flood.
    pub fn cleanup(&mut self, now: u64)
        ensures
            final(self)@ == old(self)@.cleaned(now),
    {
        let win: u64 = self.cfg.window_ms;
        self.per_ip.prune(now, win);
        window::trim(&mut self.global, now, win);
    }

    /// The number of tracked sources, capped at the largest machine integer.
    pub fn tracked_ips(&self) -> (r: usize)
        ensures
            self@.per_ip.dom().finite(),
            r == if self@.per_ip.dom().len() <= usize::MAX {
                self@.per_ip.dom().len()
            } else {
                usize::MAX as nat
            },
    {
        self.per_ip.len()
    }
}

} // verus!
