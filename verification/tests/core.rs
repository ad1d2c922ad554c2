use m0untain::detect::ratelimit::RateLimiter;
use m0untain::detect::scan::ScanDetector;
use m0untain::{
    BlockReason, Config, DdosConfig, Direction, Engine, IpAddr, Ipv4Addr, Metrics, NetEvent, Proto,
    ScanConfig, Verdict,
};

fn ip(n: u8) -> IpAddr {
    IpAddr::V4(Ipv4Addr::new(10, 0, 0, n))
}

fn cfg() -> Config {
    let mut c = Config::default();
    // Small, obvious thresholds for deterministic tests.
    c.ddos = DdosConfig {
        enabled: true,
        window_ms: 1_000,
        max_conns_per_window: 5,
        block_ms: 10_000,
        global_max_conns_per_window: 0,
    };
    c.scan = ScanConfig {
        enabled: true,
        window_ms: 2_000,
        distinct_ports_threshold: 6,
        block_ms: 20_000,
    };
    c
}

// ---- DDoS rate limiter -------------------------------------------------

#[test]
fn ddos_trips_after_threshold_within_window() {
    let mut e = Engine::new(cfg());
    let attacker = ip(1);
    // 5 allowed (threshold is "> 5"), the 6th trips.
    for i in 0..5 {
        let ev = NetEvent::inbound_new(i * 10, Proto::Tcp, attacker, 80);
        assert_eq!(e.inspect(&ev), Verdict::Pass, "conn {i} should pass");
    }
    let ev = NetEvent::inbound_new(60, Proto::Tcp, attacker, 80);
    assert!(e.inspect(&ev).is_block(), "6th conn in window must block");
}

#[test]
fn ddos_does_not_trip_when_spread_across_windows() {
    let mut e = Engine::new(cfg());
    let slow = ip(2);
    // One connection every 300ms => at most a few per 1000ms window, never > 5.
    for i in 0..30u64 {
        let ev = NetEvent::inbound_new(i * 300, Proto::Tcp, slow, 80);
        assert_eq!(e.inspect(&ev), Verdict::Pass, "slow conn {i} should pass");
    }
}

#[test]
fn ddos_isolates_per_ip() {
    let mut e = Engine::new(cfg());
    // Attacker floods; a bystander hitting the same port stays clean.
    for i in 0..6 {
        let _ = e.inspect(&NetEvent::inbound_new(i, Proto::Tcp, ip(1), 80));
    }
    let bystander = NetEvent::inbound_new(7, Proto::Tcp, ip(9), 80);
    assert_eq!(e.inspect(&bystander), Verdict::Pass, "bystander unaffected");
}

#[test]
fn ddos_block_expires_then_passes_again() {
    let mut e = Engine::new(cfg());
    let a = ip(1);
    for i in 0..6 {
        let _ = e.inspect(&NetEvent::inbound_new(i, Proto::Tcp, a, 80));
    }
    // Still blocked during the block window.
    assert!(e
        .inspect(&NetEvent::inbound_new(5_000, Proto::Tcp, a, 80))
        .is_block());
    // After block_ms (10s) has passed, housekeeping expires it and it passes.
    e.tick(20_000);
    assert_eq!(
        e.inspect(&NetEvent::inbound_new(20_001, Proto::Tcp, a, 80)),
        Verdict::Pass,
        "block should have expired"
    );
}

#[test]
fn ddos_toggle_off_disables_blocking() {
    let mut e = Engine::new(cfg());
    e.set_ddos_enabled(false);
    for i in 0..50 {
        let ev = NetEvent::inbound_new(i, Proto::Tcp, ip(1), 80);
        assert_eq!(e.inspect(&ev), Verdict::Pass, "disabled => never blocks");
    }
}

#[test]
fn ddos_ignores_outbound() {
    let mut e = Engine::new(cfg());
    let mut ev = NetEvent::inbound_new(0, Proto::Tcp, ip(1), 80);
    ev.direction = Direction::Outbound;
    for i in 0..50 {
        ev.ts_ms = i;
        assert_eq!(e.inspect(&ev), Verdict::Pass, "outbound not rate-limited");
    }
}

// ---- Port-scan detector ------------------------------------------------

#[test]
fn scan_trips_on_many_distinct_ports() {
    let mut e = Engine::new(cfg());
    let scanner = ip(3);
    // threshold is > 6 distinct ports within 2000ms. Space probes 300ms
    // apart so at most ~4 land in the 1000ms DDoS window (< 5) and the flood
    // detector never fires first — this isolates the scan logic.
    for p in 0..6u16 {
        let ev = NetEvent::inbound_new(p as u64 * 300, Proto::Tcp, scanner, 1000 + p);
        assert_eq!(e.inspect(&ev), Verdict::Pass, "port {p} should pass");
    }
    let ev = NetEvent::inbound_new(6 * 300, Proto::Tcp, scanner, 1006);
    let v = e.inspect(&ev);
    assert!(v.is_block(), "7th distinct port must flag a scan");
    if let Verdict::Block { reason, .. } = v {
        assert_eq!(reason, BlockReason::PortScan);
    }
}

#[test]
fn scan_does_not_trip_on_repeated_same_port() {
    let mut e = Engine::new(cfg());
    let noisy = ip(4);
    // 50 hits, all to the SAME port => not a scan (rate limiter would catch
    // a flood, but we disable ddos here to isolate the scan logic).
    e.set_ddos_enabled(false);
    for i in 0..50u64 {
        let ev = NetEvent::inbound_new(i * 10, Proto::Tcp, noisy, 443);
        assert_eq!(
            e.inspect(&ev),
            Verdict::Pass,
            "same-port repeats aren't a scan"
        );
    }
}

#[test]
fn scan_window_slides() {
    let mut e = Engine::new(cfg());
    let slow_scanner = ip(5);
    // One new port every 500ms. Window is 2000ms, so at most ~4-5 distinct
    // ports coexist => never exceeds threshold of 6.
    for p in 0..40u16 {
        let ev = NetEvent::inbound_new(p as u64 * 500, Proto::Tcp, slow_scanner, 3000 + p);
        assert_eq!(
            e.inspect(&ev),
            Verdict::Pass,
            "slow scan stays under window"
        );
    }
}

// ---- Whitelist + manual ------------------------------------------------

#[test]
fn whitelist_bypasses_all_detection() {
    let mut e = Engine::new(cfg());
    let trusted = ip(1);
    e.whitelist_add(trusted);
    for i in 0..100 {
        let ev = NetEvent::inbound_new(i, Proto::Tcp, trusted, (i % 200) as u16);
        assert_eq!(e.inspect(&ev), Verdict::Pass, "whitelisted never blocked");
    }
}

#[test]
fn manual_block_is_enforced_and_liftable() {
    let mut e = Engine::new(cfg());
    let bad = ip(7);
    e.block_manual(bad, 5_000);
    assert!(e
        .inspect(&NetEvent::inbound_new(100, Proto::Tcp, bad, 22))
        .is_block());
    e.unblock(&bad);
    assert_eq!(
        e.inspect(&NetEvent::inbound_new(200, Proto::Tcp, bad, 22)),
        Verdict::Pass
    );
}

// ---- Metrics -----------------------------------------------------------

#[test]
fn metrics_bucket_and_series() {
    let mut m = Metrics::new(1_000, 5);
    // two events in bucket 0, one in bucket 1
    let e0 = NetEvent::inbound_new(100, Proto::Tcp, ip(1), 80);
    let e1 = NetEvent::inbound_new(200, Proto::Tcp, ip(2), 80);
    let e2 = NetEvent::inbound_new(1_100, Proto::Tcp, ip(1), 80);
    m.record(&e0, &Verdict::Pass);
    m.record(
        &e1,
        &Verdict::Block {
            until_ms: 9_999,
            reason: BlockReason::RateLimit,
        },
    );
    m.record(&e2, &Verdict::Pass);
    let s = m.series();
    assert_eq!(s.len(), 2, "two time buckets");
    assert_eq!(s[0].events, 2);
    assert_eq!(s[0].blocked, 1);
    assert_eq!(s[0].ratelimit_blocks, 1);
    assert_eq!(s[0].unique_ips, 2);
    assert_eq!(s[1].events, 1);
    assert_eq!(s[1].passed, 1);
}

#[test]
fn metrics_ring_capacity() {
    let mut m = Metrics::new(1_000, 3);
    for sec in 0..10u64 {
        let ev = NetEvent::inbound_new(sec * 1_000 + 50, Proto::Tcp, ip(1), 80);
        m.record(&ev, &Verdict::Pass);
    }
    let s = m.series();
    assert_eq!(s.len(), 3, "ring keeps only the last 3 buckets");
    assert_eq!(s[2].t_ms, 9_000, "newest bucket retained");
}

// ---- Edges ------------------------------------------------------------------

#[test]
fn default_config_has_the_documented_values() {
    let c = Config::default();
    assert!(c.ddos.enabled);
    assert_eq!(c.ddos.window_ms, 1_000);
    assert_eq!(c.ddos.max_conns_per_window, 40);
    assert_eq!(c.ddos.block_ms, 60_000);
    assert_eq!(c.ddos.global_max_conns_per_window, 0);
    assert!(c.scan.enabled);
    assert_eq!(c.scan.window_ms, 3_000);
    assert_eq!(c.scan.distinct_ports_threshold, 15);
    assert_eq!(c.scan.block_ms, 300_000);
}

#[test]
fn global_cap_counts_all_sources() {
    let mut c = cfg();
    c.ddos.global_max_conns_per_window = 3;
    let mut e = Engine::new(c);
    for n in 1..4u8 {
        let ev = NetEvent::inbound_new(n as u64, Proto::Tcp, ip(n), 80);
        assert_eq!(e.inspect(&ev), Verdict::Pass);
    }
    let ev = NetEvent::inbound_new(4, Proto::Tcp, ip(4), 80);
    assert_eq!(
        e.inspect(&ev),
        Verdict::Block { until_ms: 10_004, reason: BlockReason::RateLimit }
    );
}

#[test]
fn flood_block_carries_its_deadline() {
    let mut e = Engine::new(cfg());
    for i in 0..5 {
        let _ = e.inspect(&NetEvent::inbound_new(i, Proto::Tcp, ip(1), 80));
    }
    let v = e.inspect(&NetEvent::inbound_new(5, Proto::Tcp, ip(1), 80));
    assert_eq!(v, Verdict::Block { until_ms: 10_005, reason: BlockReason::RateLimit });
    assert_eq!(e.active_blocks(6), vec![(ip(1), 10_005, BlockReason::RateLimit)]);
    assert!(e.active_blocks(10_005).is_empty());
}

#[test]
fn deadline_beyond_the_end_of_time_is_declined() {
    let mut c = cfg();
    c.ddos.max_conns_per_window = 0;
    c.ddos.block_ms = u64::MAX;
    let mut e = Engine::new(c);
    assert_eq!(e.try_inspect(&NetEvent::inbound_new(1, Proto::Tcp, ip(1), 80)), None);
    assert!(e.active_blocks(1).is_empty());
    let ev = NetEvent::inbound_new(0, Proto::Tcp, ip(2), 80);
    assert_eq!(
        e.try_inspect(&ev),
        Some(Verdict::Block { until_ms: u64::MAX, reason: BlockReason::RateLimit })
    );
}

#[test]
fn established_flows_are_not_counted() {
    let mut e = Engine::new(cfg());
    for i in 0..50 {
        let mut ev = NetEvent::inbound_new(i, Proto::Tcp, ip(1), i as u16);
        ev.is_new_conn = false;
        assert_eq!(e.inspect(&ev), Verdict::Pass);
    }
}

#[test]
fn housekeeping_does_not_change_verdicts() {
    let mut a = Engine::new(cfg());
    let mut b = Engine::new(cfg());
    for i in 0..40u64 {
        let ev = NetEvent::inbound_new(i * 170, Proto::Tcp, ip((i % 3) as u8), (i % 9) as u16);
        assert_eq!(a.inspect(&ev), b.inspect(&ev), "event {i}");
        b.tick(i * 170);
    }
}

#[test]
fn scan_toggle_off_disables_scan_blocking() {
    let mut e = Engine::new(cfg());
    e.set_scan_enabled(false);
    for p in 0..40u16 {
        let ev = NetEvent::inbound_new(p as u64 * 300, Proto::Tcp, ip(3), 1000 + p);
        assert_eq!(e.inspect(&ev), Verdict::Pass);
    }
}

#[test]
fn leaving_the_whitelist_restores_detection() {
    let mut e = Engine::new(cfg());
    e.whitelist_add(ip(1));
    e.block_manual(ip(1), 5_000);
    assert_eq!(e.inspect(&NetEvent::inbound_new(1, Proto::Tcp, ip(1), 80)), Verdict::Pass);
    e.whitelist_remove(&ip(1));
    assert_eq!(
        e.inspect(&NetEvent::inbound_new(2, Proto::Tcp, ip(1), 80)),
        Verdict::Block { until_ms: 5_000, reason: BlockReason::Manual }
    );
}

#[test]
fn set_config_takes_effect_at_once() {
    let mut e = Engine::new(cfg());
    let mut c = cfg();
    c.ddos.max_conns_per_window = 0;
    e.set_config(c);
    assert_eq!(*e.config(), c);
    assert!(e.inspect(&NetEvent::inbound_new(0, Proto::Tcp, ip(1), 80)).is_block());
}

#[test]
fn metrics_latest_is_the_newest_bucket() {
    let mut m = Metrics::new(0, 0);
    assert!(m.latest().is_none());
    let mut ev = NetEvent::inbound_new(7, Proto::Tcp, ip(1), 80);
    ev.direction = Direction::Outbound;
    assert!(m.has_room(7));
    m.record(&ev, &Verdict::Block { until_ms: 9, reason: BlockReason::PortScan });
    let b = m.latest().unwrap();
    assert_eq!(b.t_ms, 7);
    assert_eq!(b.outbound, 1);
    assert_eq!(b.inbound, 0);
    assert_eq!(b.scan_blocks, 1);
    assert_eq!(m.series().len(), 1);
}

#[test]
fn rate_limiter_forgets_stale_sources() {
    let mut rl = RateLimiter::new(cfg().ddos);
    assert_eq!(rl.tracked_ips(), 0);
    assert!(!rl.check(&NetEvent::inbound_new(0, Proto::Tcp, ip(1), 80)));
    assert!(!rl.check(&NetEvent::inbound_new(900, Proto::Tcp, ip(2), 80)));
    assert_eq!(rl.tracked_ips(), 2);
    rl.cleanup(1_000);
    assert_eq!(rl.tracked_ips(), 2);
    rl.cleanup(1_001);
    assert_eq!(rl.tracked_ips(), 1);
    let mut off = cfg().ddos;
    off.enabled = false;
    rl.set_config(off);
    assert!(!rl.check(&NetEvent::inbound_new(1_001, Proto::Tcp, ip(3), 80)));
    assert_eq!(rl.tracked_ips(), 1);
}

#[test]
fn scan_detector_counts_distinct_ports() {
    let mut s = ScanDetector::new(cfg().scan);
    for p in 0..6u16 {
        assert!(!s.check(&NetEvent::inbound_new(p as u64, Proto::Tcp, ip(1), p)));
        assert!(!s.check(&NetEvent::inbound_new(p as u64, Proto::Tcp, ip(1), p)));
    }
    assert!(s.check(&NetEvent::inbound_new(6, Proto::Tcp, ip(1), 6)));
    s.cleanup(5_000);
    assert!(!s.check(&NetEvent::inbound_new(5_000, Proto::Tcp, ip(1), 7)));
}

// ---- Whole runs ----------------------------------------------------------

/// A run of events in order of time, some of them outbound.
fn run_of_events() -> Vec<NetEvent> {
    let mut seed = 99u64;
    let mut now = 0u64;
    let mut out = Vec::new();
    for _ in 0..2_000 {
        seed = seed.wrapping_mul(6_364_136_223_846_793_005).wrapping_add(1_442_695_040_888_963_407);
        now += (seed >> 58) % 60;
        let port = 80 + ((seed >> 40) % 9) as u16;
        let mut ev = NetEvent::inbound_new(now, Proto::Tcp, ip(((seed >> 33) % 4) as u8), port);
        if (seed >> 50) % 11 == 0 {
            ev.direction = Direction::Outbound;
        }
        out.push(ev);
    }
    out
}

fn attempts(seen: &[NetEvent], width: u64) -> Vec<&NetEvent> {
    let now = seen.last().unwrap().ts_ms;
    seen.iter()
        .filter(|e| e.direction == Direction::Inbound && e.is_new_conn && now - e.ts_ms <= width)
        .collect()
}

#[test]
fn detectors_are_right_about_a_whole_run() {
    let events = run_of_events();
    let mut flood = DdosConfig { max_conns_per_window: 9, ..cfg().ddos };
    flood.global_max_conns_per_window = 40;
    let sweep = cfg().scan;
    let mut rl = RateLimiter::new(flood);
    let mut scan = ScanDetector::new(sweep);
    let (mut floods, mut sweeps) = (0, 0);
    for (i, ev) in events.iter().enumerate() {
        if i % 7 == 0 {
            rl.cleanup(ev.ts_ms);
            scan.cleanup(ev.ts_ms);
        }
        let seen = &events[..=i];
        let counts = ev.direction == Direction::Inbound;
        let all = attempts(seen, flood.window_ms);
        let own = all.iter().filter(|e| e.remote_ip == ev.remote_ip).count();
        let trips = counts && (own > 9 || all.len() > 40);
        assert_eq!(rl.check(ev), trips, "{i}");
        let mut ports: Vec<u16> = attempts(seen, sweep.window_ms)
            .iter()
            .filter(|e| e.remote_ip == ev.remote_ip)
            .map(|e| e.local_port)
            .collect();
        ports.sort();
        ports.dedup();
        let swept = counts && ports.len() > sweep.distinct_ports_threshold as usize;
        assert_eq!(scan.check(ev), swept, "{i}");
        floods += trips as u32;
        sweeps += swept as u32;
    }
    assert!(floods > 0 && sweeps > 0);
}

#[test]
fn housekeeping_changes_no_verdict() {
    let mut tidy = Engine::new(cfg());
    let mut untidy = Engine::new(cfg());
    let mut blocks = 0;
    for (i, ev) in run_of_events().iter().enumerate() {
        if i % 3 == 0 {
            tidy.tick(ev.ts_ms);
        }
        let verdict = tidy.inspect(ev);
        assert_eq!(verdict, untidy.inspect(ev), "{i}");
        blocks += verdict.is_block() as u32;
    }
    assert!(blocks > 0);
}

#[test]
fn series_is_right_about_a_whole_run() {
    let events = run_of_events();
    let mut m = Metrics::new(500, 6);
    for (i, ev) in events.iter().enumerate() {
        m.record(ev, &Verdict::Pass);
        let series = m.series();
        let mut starts: Vec<u64> = events[..=i].iter().map(|e| e.ts_ms - e.ts_ms % 500).collect();
        starts.dedup();
        let kept = &starts[starts.len().saturating_sub(6)..];
        assert_eq!(series.iter().map(|b| b.t_ms).collect::<Vec<u64>>(), kept);
        for b in &series {
            let of_slice: Vec<&NetEvent> =
                events[..=i].iter().filter(|e| e.ts_ms - e.ts_ms % 500 == b.t_ms).collect();
            assert_eq!(b.events as usize, of_slice.len());
            let inbound = of_slice.iter().filter(|e| e.direction == Direction::Inbound).count();
            assert_eq!(b.inbound as usize, inbound);
        }
    }
}
