use m0untain::pipeline::{drop_percent, reason_str};
use m0untain::{build_tick, BlockReason, BucketOut, IpAddr, Ipv4Addr, Talkers};

fn ip(n: u8) -> IpAddr {
    IpAddr::V4(Ipv4Addr::new(203, 0, 113, n))
}

#[test]
fn talkers_rank_and_flag() {
    let mut t = Talkers::new(60_000);
    for _ in 0..10 {
        t.record(ip(1), 1_000);
    }
    for _ in 0..3 {
        t.record(ip(2), 1_000);
    }
    let top = t.top(5, &[ip(1)]);
    assert_eq!(top[0].ip, ip(1).to_string());
    assert_eq!(top[0].n, 10);
    assert!(top[0].flag, "blocked IP should be flagged");
    assert_eq!(top[1].n, 3);
    assert!(!top[1].flag);
}

#[test]
fn talkers_window_expires() {
    let mut t = Talkers::new(1_000);
    for i in 0..5 {
        t.record(ip(1), i * 100);
    }
    t.cleanup(5_000); // long after window
    assert!(t.top(5, &[]).is_empty(), "stale talkers pruned");
}

#[test]
fn build_tick_shapes_payload() {
    let bucket = BucketOut {
        t_ms: 1_000,
        events: 100,
        inbound: 70,
        outbound: 30,
        passed: 90,
        blocked: 10,
        ratelimit_blocks: 6,
        scan_blocks: 4,
        unique_ips: 12,
    };
    let blocks = vec![
        (ip(1), 61_000u64, BlockReason::RateLimit),
        (ip(2), 301_000u64, BlockReason::PortScan),
    ];
    let mut talkers = Talkers::new(60_000);
    talkers.record(ip(1), 1_000);
    let p = build_tick(Some(&bucket), &blocks, &talkers, 1_000);
    assert_eq!(p.inbound, 70);
    assert_eq!(p.outbound, 30);
    assert_eq!(p.flood, 6);
    assert_eq!(p.scan, 4);
    assert_eq!(p.unique, 12);
    assert_eq!(p.drop, 10); // 10/100 = 10%
    assert_eq!(p.blocks.len(), 2);
    // scan block has the longer ttl so it sorts first
    assert_eq!(p.blocks[0].reason, "scan");
    assert_eq!(p.blocks[0].ttl, 300);
    assert_eq!(p.blocks[1].reason, "flood");
    assert_eq!(p.blocks[1].ttl, 60);
}

#[test]
fn build_tick_handles_empty_bucket() {
    let talkers = Talkers::new(1_000);
    let p = build_tick(None, &[], &talkers, 0);
    assert_eq!(p.inbound, 0);
    assert_eq!(p.drop, 0);
    assert!(p.blocks.is_empty());
}

fn rounded(blocked: u32, events: u32) -> u32 {
    let total = events.max(1);
    let drop = ((blocked as f64 / total as f64) * 100.0).round() as u32;
    drop.min(100)
}

#[test]
fn drop_percent_agrees_with_floating_point() {
    for events in 0..1200u32 {
        for blocked in 0..events + 2 {
            assert_eq!(drop_percent(blocked, events), rounded(blocked, events), "{blocked}/{events}");
        }
    }
    for events in [u32::MAX, u32::MAX - 1, 4_000_000_000, 3_999_999_800] {
        for blocked in [0, 1, events / 200, events / 200 + 1, events / 2, events - 1, events] {
            assert_eq!(drop_percent(blocked, events), rounded(blocked, events), "{blocked}/{events}");
        }
    }
}

#[test]
fn drop_percent_of_exact_halves() {
    assert_eq!(drop_percent(1, 200), 1);
    assert_eq!(drop_percent(29, 200), 14);
    assert_eq!(drop_percent(57, 200), 28);
    assert_eq!(drop_percent(113, 200), 56);
    assert_eq!(drop_percent(115, 200), 57);
    assert_eq!(drop_percent(117, 200), 59);
    assert_eq!(drop_percent(10, 0), 100);
    assert_eq!(drop_percent(0, 0), 0);
}

#[test]
fn every_reason_has_its_word() {
    assert_eq!(reason_str(BlockReason::RateLimit), "flood");
    assert_eq!(reason_str(BlockReason::PortScan), "scan");
    assert_eq!(reason_str(BlockReason::Manual), "manual");
    assert_eq!(reason_str(BlockReason::Blocklist), "blocklist");
}

#[test]
fn only_the_top_talkers_are_shown() {
    let mut t = Talkers::new(60_000);
    for n in 1..12u8 {
        for _ in 0..n {
            t.record(ip(n), 1_000);
        }
    }
    let p = build_tick(None, &[], &t, 1_000);
    let shown: Vec<u32> = p.talkers.iter().map(|t| t.n).collect();
    assert_eq!(shown, vec![11, 10, 9, 8, 7, 6, 5]);
    assert_eq!(p.talkers[0].ip, "203.0.113.11");
}

#[test]
fn ended_blocks_have_no_time_left() {
    let blocks = vec![(ip(1), 5u64, BlockReason::Manual)];
    let p = build_tick(None, &blocks, &Talkers::new(0), 9_000);
    assert_eq!(p.blocks[0].ttl, 0);
    assert_eq!(p.blocks[0].reason, "manual");
    assert_eq!(p.blocks[0].ip, "203.0.113.1");
}

#[test]
fn talkers_are_right_about_a_whole_run() {
    let width = 50u64;
    let mut t = Talkers::new(width);
    let mut records: Vec<(u8, u64)> = Vec::new();
    let mut settled = [0u64; 6];
    let mut seed = 12_345u64;
    let mut now = 0u64;
    for _ in 0..3_000 {
        seed = seed.wrapping_mul(6_364_136_223_846_793_005).wrapping_add(1_442_695_040_888_963_407);
        now += (seed >> 60) % 4;
        let n = ((seed >> 33) % 6) as u8;
        if (seed >> 50) % 9 == 0 {
            t.cleanup(now);
            settled = [now; 6];
        } else {
            t.record(ip(n), now);
            records.push((n, now));
            settled[n as usize] = now;
        }
        let count = |n: u8| {
            let end = settled[n as usize];
            records.iter().filter(|(k, s)| *k == n && end - *s <= width).count()
        };
        let known: Vec<u8> = (0..6).filter(|n| count(*n) > 0).collect();
        let top = t.top(4, &[ip(2)]);
        assert_eq!(top.len(), known.len().min(4));
        for line in &top {
            let n = *known.iter().find(|n| ip(**n).to_string() == line.ip).unwrap();
            assert_eq!(line.n as usize, count(n));
            assert_eq!(line.flag, n == 2);
        }
        for pair in top.windows(2) {
            assert!(pair[0].n >= pair[1].n);
            assert_ne!(pair[0].ip, pair[1].ip);
        }
        for n in known {
            if top.iter().all(|line| line.ip != ip(n).to_string()) {
                assert!(top.iter().all(|line| line.n as usize >= count(n)));
            }
        }
    }
}
