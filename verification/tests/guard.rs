use m0untain::guard::{manual_block_end, Guard};
use m0untain::wfp::sim::SimFirewall;
use m0untain::wfp::{AppProtocol, Firewall, RemoteMatch};
use m0untain::{BlockReason, Config, Direction, IpAddr, Ipv4Addr, NetEvent, Proto, Verdict};

/// A packet filter that keeps a log of addresses and handles.
struct Log {
    calls: Vec<String>,
    next: u64,
}

impl Firewall for Log {
    fn block_ip(&mut self, ip: IpAddr) -> Result<u64, String> {
        self.next += 1;
        self.calls.push(format!("block {} as {}", ip.to_string(), self.next));
        Ok(self.next)
    }

    fn block_app(&mut self, _app_id: &Vec<u8>, _protocol: AppProtocol) -> Result<u64, String> {
        Err("not here".to_string())
    }

    fn block_app_target(
        &mut self,
        _app_id: &Vec<u8>,
        _protocol: AppProtocol,
        _remote: Option<RemoteMatch>,
        _remote_port: Option<u16>,
    ) -> Result<u64, String> {
        Err("not here".to_string())
    }

    fn unblock(&mut self, handle: u64) -> Result<(), String> {
        self.calls.push(format!("unblock {handle}"));
        Ok(())
    }

    fn backend(&self) -> &'static str {
        "log"
    }
}

/// A packet filter that refuses everything.
struct Broken {
    asked: usize,
}

impl Firewall for Broken {
    fn block_ip(&mut self, _ip: IpAddr) -> Result<u64, String> {
        self.asked += 1;
        Err("out of order".to_string())
    }

    fn block_app(&mut self, _app_id: &Vec<u8>, _protocol: AppProtocol) -> Result<u64, String> {
        Err("out of order".to_string())
    }

    fn block_app_target(
        &mut self,
        _app_id: &Vec<u8>,
        _protocol: AppProtocol,
        _remote: Option<RemoteMatch>,
        _remote_port: Option<u16>,
    ) -> Result<u64, String> {
        Err("out of order".to_string())
    }

    fn unblock(&mut self, _handle: u64) -> Result<(), String> {
        Err("out of order".to_string())
    }

    fn backend(&self) -> &'static str {
        "broken"
    }
}

fn ip(n: u8) -> IpAddr {
    IpAddr::V4(Ipv4Addr::new(198, 51, 100, n))
}

fn strict() -> Config {
    let mut c = Config::default();
    c.ddos.max_conns_per_window = 2;
    c.ddos.block_ms = 5_000;
    c
}

fn hit(t: u64, n: u8) -> NetEvent {
    NetEvent::inbound_new(t, Proto::Tcp, ip(n), 80)
}

#[test]
fn flood_is_blocked_by_the_packet_filter_until_it_expires() {
    let mut fw = SimFirewall::start().unwrap();
    let mut g = Guard::new(strict());
    for t in 0..2 {
        assert_eq!(g.observe(&mut fw, &hit(t, 1)).unwrap().verdict, Verdict::Pass);
    }
    let o = g.observe(&mut fw, &hit(2, 1)).unwrap();
    assert_eq!(o.verdict, Verdict::Block { until_ms: 5_002, reason: BlockReason::RateLimit });
    assert_eq!(o.report, None);
    let again = g.begin_event(&hit(3, 1)).unwrap();
    assert!(again.verdict.is_block());
    assert_eq!(again.block_until, None);
    assert!(g.expire(5_001).is_empty());
    assert_eq!(g.expire(5_002), vec![1]);
    assert!(g.expire(5_002).is_empty());
}

#[test]
fn failed_block_is_reported_and_tried_again() {
    let mut fw = Broken { asked: 0 };
    let mut g = Guard::new(strict());
    for t in 0..2 {
        assert_eq!(g.observe(&mut fw, &hit(t, 1)).unwrap().report, None);
    }
    let o = g.observe(&mut fw, &hit(2, 1)).unwrap();
    assert!(o.verdict.is_block());
    assert_eq!(o.report, Some("block_ip failed for 198.51.100.1: out of order".to_string()));
    assert!(g.observe(&mut fw, &hit(3, 1)).unwrap().report.is_some());
    assert_eq!(fw.asked, 2);
}

#[test]
fn manual_blocks_hold_and_are_lifted() {
    let mut fw = SimFirewall::start().unwrap();
    let mut g = Guard::new(Config::default());
    assert_eq!(
        g.block_remote_ip(&mut fw, "198.51.100.300", 1, 0),
        Err("invalid IP".to_string())
    );
    assert_eq!(g.block_remote_ip(&mut fw, "198.51.100.9", 0, 1_000), Ok(()));
    let o = g.observe(&mut fw, &hit(2_000, 9)).unwrap();
    assert_eq!(o.verdict, Verdict::Block { until_ms: 61_000, reason: BlockReason::Manual });
    let p = g.tick(2_000);
    assert_eq!(p.blocks.len(), 1);
    assert_eq!(p.blocks[0].ip, "198.51.100.9");
    assert_eq!(p.blocks[0].ttl, 59);
    assert_eq!(g.unblock_ip(&mut fw, &p.blocks[0].ip), Ok(()));
    assert_eq!(g.unblock_ip(&mut fw, "198.51.100.9"), Ok(()));
    assert_eq!(g.unblock_ip(&mut fw, "x"), Err("invalid IP".to_string()));
    assert_eq!(g.observe(&mut fw, &hit(2_001, 9)).unwrap().verdict, Verdict::Pass);
    let mut broken = Broken { asked: 0 };
    assert_eq!(
        g.block_remote_ip(&mut broken, "198.51.100.9", 1, 0),
        Err("out of order".to_string())
    );
    assert_eq!(g.observe(&mut fw, &hit(2_002, 9)).unwrap().verdict, Verdict::Pass);
}

#[test]
fn packet_filter_is_asked_for_exactly_what_is_called_for() {
    let mut fw = Log { calls: Vec::new(), next: 0 };
    let mut g = Guard::new(strict());
    for t in 0..6 {
        assert_eq!(g.observe(&mut fw, &hit(t, 1)).unwrap().report, None);
    }
    assert_eq!(fw.calls, vec!["block 198.51.100.1 as 1"]);
    assert!(g.block_remote_ip(&mut fw, "nowhere", 1, 10).is_err());
    assert_eq!(fw.calls.len(), 1);
    assert_eq!(g.block_remote_ip(&mut fw, "198.51.100.1", 1, 10), Ok(()));
    assert_eq!(fw.calls[1..], ["block 198.51.100.1 as 2", "unblock 1"]);
    g.lift_ended(&mut fw, 60_009);
    assert_eq!(fw.calls.len(), 3);
    g.lift_ended(&mut fw, 60_010);
    assert_eq!(fw.calls[3..], ["unblock 2"]);
    assert_eq!(g.block_remote_ip(&mut fw, "198.51.100.4", 1, 10), Ok(()));
    assert_eq!(g.unblock_ip(&mut fw, "198.51.100.4"), Ok(()));
    assert_eq!(g.unblock_ip(&mut fw, "198.51.100.4"), Ok(()));
    assert_eq!(fw.calls[4..], ["block 198.51.100.4 as 3", "unblock 3"]);
}

#[test]
fn renewed_manual_block_replaces_the_old_one() {
    let mut g = Guard::new(Config::default());
    let (addr, until) = g.begin_manual_block("198.51.100.7", 2, 10).unwrap();
    assert_eq!((addr, until), (ip(7), 120_010));
    assert_eq!(g.finish_manual_block(addr, until, 5), None);
    assert_eq!(g.finish_manual_block(addr, until, 6), Some(5));
}

#[test]
fn manual_blocks_saturate() {
    assert_eq!(manual_block_end(0, 5), 60_005);
    assert_eq!(manual_block_end(3, 5), 180_005);
    assert_eq!(manual_block_end(u64::MAX, 5), u64::MAX);
    assert_eq!(manual_block_end(1, u64::MAX), u64::MAX);
    for (m, now) in [(0u64, 0u64), (7, 9), (u64::MAX / 60_000, 1), (u64::MAX / 60_000 + 1, 0)] {
        assert_eq!(manual_block_end(m, now), now.saturating_add(m.max(1).saturating_mul(60_000)));
    }
}

#[test]
fn trusted_addresses_pass() {
    let mut fw = SimFirewall::start().unwrap();
    let mut g = Guard::new(strict());
    assert_eq!(g.whitelist_add("198.51.100.1"), Ok(()));
    assert_eq!(g.whitelist_add(""), Err("invalid IP".to_string()));
    for t in 0..20 {
        assert_eq!(g.observe(&mut fw, &hit(t, 1)).unwrap().verdict, Verdict::Pass);
    }
}

#[test]
fn modules_are_switched_by_name() {
    let mut g = Guard::new(Config::default());
    g.set_protection("ddos", false);
    assert!(!g.config().ddos.enabled);
    assert!(g.config().scan.enabled);
    g.set_protection("scan", false);
    assert!(!g.config().scan.enabled);
    g.set_protection("other", true);
    assert!(!g.config().ddos.enabled);
    g.set_protection("ddos", true);
    assert!(g.config().ddos.enabled);
    g.set_config(strict());
    assert_eq!(*g.config(), strict());
}

#[test]
fn dashboard_shows_the_newest_second() {
    let mut fw = SimFirewall::start().unwrap();
    let mut g = Guard::new(strict());
    for t in 0..4 {
        let _ = g.observe(&mut fw, &hit(1_000 + t, 1));
    }
    let mut out = hit(1_004, 2);
    out.direction = Direction::Outbound;
    let _ = g.observe(&mut fw, &out);
    let p = g.tick(1_500);
    assert_eq!(p.inbound, 4);
    assert_eq!(p.outbound, 1);
    assert_eq!(p.flood, 2);
    assert_eq!(p.unique, 2);
    assert_eq!(p.drop, 40);
    assert_eq!(p.talkers[0].ip, "198.51.100.1");
    assert_eq!(p.talkers[0].n, 4);
    assert!(p.talkers[0].flag);
    assert!(!p.talkers[1].flag);
    assert_eq!(g.series().len(), 1);
    let p = g.tick(100_000);
    assert!(p.talkers.is_empty());
    assert!(p.blocks.is_empty());
}

#[test]
fn deadline_that_does_not_fit_is_declined() {
    let mut fw = SimFirewall::start().unwrap();
    let mut c = Config::default();
    c.ddos.max_conns_per_window = 0;
    c.ddos.block_ms = u64::MAX;
    let mut g = Guard::new(c);
    assert!(g.observe(&mut fw, &hit(1, 1)).is_none());
    assert!(g.series().is_empty());
}
