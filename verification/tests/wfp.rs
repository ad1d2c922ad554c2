use m0untain::detect::Verdict;
use m0untain::feed::raw_to_event;
use m0untain::wfp::filter::{
    identity_block_filter, ipv4_prefix_mask, target_matches_layer, Condition, FilterAction,
    Identity, Layer,
};
use m0untain::wfp::install::{
    deleted, engine_opened, sublayer_added, subscribed, HandleTable, Installation, Rollback,
};
use m0untain::wfp::netevent::{
    account_name, compose_account_name, decode, reads_package, text_up_to_nul, Classification,
    NetEventRecord,
};
use m0untain::wfp::sim::{Rng, SimFirewall, Simulator};
use m0untain::wfp::{app_id_from_path, AppProtocol, Firewall, RawConn, RemoteMatch};
use m0untain::{Config, Engine, IpAddr, Ipv4Addr, Ipv6Addr};

fn v4(a: u8, b: u8, c: u8, d: u8) -> IpAddr {
    IpAddr::V4(Ipv4Addr::new(a, b, c, d))
}

fn v6(bits: u128) -> IpAddr {
    IpAddr::V6(Ipv6Addr { bits })
}

#[test]
fn prefix_masks() {
    for p in 0..=255u8 {
        let expected = if p == 0 { 0 } else { u32::MAX << (32 - p.min(32)) };
        assert_eq!(ipv4_prefix_mask(p), expected, "{p}");
    }
    assert_eq!(ipv4_prefix_mask(24), 0xffff_ff00);
}

#[test]
fn targets_belong_to_their_family() {
    let net4 = Some(RemoteMatch::Cidr { network: v4(10, 0, 0, 0), prefix: 8 });
    let ip6 = Some(RemoteMatch::Ip(v6(1)));
    assert!(target_matches_layer(net4, Layer::ConnectV4));
    assert!(!target_matches_layer(net4, Layer::ConnectV6));
    assert!(target_matches_layer(ip6, Layer::ConnectV6));
    assert!(!target_matches_layer(ip6, Layer::ConnectV4));
    assert!(target_matches_layer(None, Layer::ConnectV4));
    assert!(target_matches_layer(None, Layer::ConnectV6));
}

#[test]
fn identity_blocks_are_built() {
    let app = Identity::AppId(vec![1, 2]);
    let f = identity_block_filter(&app, Layer::ConnectV4, AppProtocol::Tcp, None, Some(443))
        .unwrap()
        .unwrap();
    assert_eq!(f.layer, Layer::ConnectV4);
    assert_eq!(f.action, FilterAction::Block);
    assert_eq!(f.weight, 15);
    assert_eq!(f.name, "m0untain application quarantine");
    assert_eq!(
        f.conditions,
        vec![
            Condition::AppId(vec![1, 2]),
            Condition::Protocol(6),
            Condition::RemotePort(443),
        ]
    );
    let package = Identity::PackageSid(vec![3]);
    let remote = Some(RemoteMatch::Ip(v6(5)));
    let f = identity_block_filter(&package, Layer::ConnectV6, AppProtocol::All, remote, None)
        .unwrap()
        .unwrap();
    assert_eq!(
        f.conditions,
        vec![Condition::PackageId(vec![3]), Condition::RemoteV6(Ipv6Addr { bits: 5 })]
    );
    assert_eq!(
        identity_block_filter(&package, Layer::ConnectV4, AppProtocol::All, remote, None),
        Ok(None)
    );
    assert_eq!(
        identity_block_filter(&Identity::AppId(Vec::new()), Layer::ConnectV4, AppProtocol::All, remote, None),
        Err("invalid WFP application/package identifier".to_string())
    );
}

#[test]
fn address_block_covers_both_directions() {
    let mut i = Installation::block_ip(v4(1, 2, 3, 4));
    let first = i.next().unwrap();
    assert_eq!(first.layer, Layer::ConnectV4);
    assert_eq!(first.conditions, vec![Condition::RemoteV4(0x0102_0304)]);
    assert_eq!(first.name, "m0untain block");
    assert_eq!(i.added(0, 11), Ok(()));
    assert_eq!(i.next().unwrap().layer, Layer::AcceptV4);
    assert_eq!(i.added(0, 12), Ok(()));
    assert!(i.next().is_none());
    assert_eq!(i.into_ids(), vec![11, 12]);
    assert_eq!(Installation::block_ip(v6(1)).next().unwrap().layer, Layer::ConnectV6);
}

#[test]
fn failed_installation_is_rolled_back() {
    let mut i = Installation::block_ip(v4(1, 2, 3, 4));
    assert_eq!(i.added(0, 11), Ok(()));
    assert_eq!(
        i.added(5, 0),
        Err(Rollback { delete: vec![11], error: "FwpmFilterAdd0 failed: 5".to_string() })
    );
    let app = Identity::AppId(vec![1]);
    let mut i = Installation::block_target(&app, AppProtocol::All, None, None).unwrap();
    assert_eq!(
        i.added(7, 0),
        Err(Rollback { delete: Vec::new(), error: "FwpmFilterAdd0(app) failed: 7".to_string() })
    );
    let remote = Some(RemoteMatch::Ip(v4(1, 1, 1, 1)));
    let mut i = Installation::block_target(&app, AppProtocol::All, remote, None).unwrap();
    assert_eq!(i.next().unwrap().layer, Layer::ConnectV4);
    assert_eq!(i.added(0, 3), Ok(()));
    assert!(i.next().is_none());
    let empty = Identity::PackageSid(Vec::new());
    assert_eq!(
        Installation::block_target(&empty, AppProtocol::All, None, None).err(),
        Some("invalid WFP application/package identifier".to_string())
    );
}

#[test]
fn handles_give_back_what_was_filed() {
    let mut t = HandleTable::new();
    assert!(t.has_room());
    let a = t.register(vec![1, 2]);
    let b = t.register(vec![3]);
    assert_eq!((a, b), (1, 2));
    assert_eq!(t.take(a), Some(vec![1, 2]));
    assert_eq!(t.take(a), None);
    assert_eq!(t.take(b), Some(vec![3]));
    assert_eq!(t.register(Vec::new()), 3);
}

#[test]
fn statuses_are_reported() {
    assert_eq!(deleted(&vec![0, 0]), Ok(()));
    assert_eq!(deleted(&vec![]), Ok(()));
    assert_eq!(
        deleted(&vec![0, 4, 5]),
        Err("FwpmFilterDeleteById0 failed: 4".to_string())
    );
    assert_eq!(engine_opened(0), Ok(()));
    assert_eq!(engine_opened(1062), Err("FwpmEngineOpen0 failed: 1062".to_string()));
    assert_eq!(
        sublayer_added(5),
        Err("FwpmSubLayerAdd0 failed: 5. Run m0untain as administrator.".to_string())
    );
    assert_eq!(sublayer_added(0), Ok(()));
    assert_eq!(sublayer_added(0x8032_0009), Ok(()));
    assert_eq!(
        sublayer_added(0x8032_0008),
        Err("FwpmSubLayerAdd0 failed: 2150760456. Run m0untain as administrator.".to_string())
    );
    assert_eq!(subscribed(0), Ok(()));
    assert_eq!(subscribed(9), Err("FwpmNetEventSubscribe4 failed: 9".to_string()));
}

fn record() -> NetEventRecord {
    NetEventRecord {
        event_type: 6,
        details: Some(Classification { direction: 1, reauth_reason: 0 }),
        flags: 256 | 4 | 32,
        ip_version: 0,
        ip_protocol: 17,
        remote_v4: 0x0a00_0001,
        remote_v6: [0; 16],
        remote_port: 5353,
        local_port: 80,
        app_id: Some(wide("\\device\\a.exe\0junk")),
        has_package: true,
    }
}

fn wide(s: &str) -> Vec<u8> {
    s.encode_utf16().flat_map(|u| u.to_le_bytes()).collect()
}

#[test]
fn net_events_are_decoded() {
    let raw = decode(&record(), 77).unwrap();
    assert_eq!(
        raw,
        RawConn {
            ts_ms: 77,
            inbound: true,
            is_new: true,
            udp: true,
            remote_ip: v4(10, 0, 0, 1),
            remote_port: 5353,
            local_port: 80,
            pid: 0,
            app_id: Some(wide("\\device\\a.exe\0junk")),
            app_path: Some("\\device\\a.exe".to_string()),
        }
    );
    let mut r = record();
    r.event_type = 3;
    r.details = Some(Classification { direction: 2, reauth_reason: 1 });
    r.ip_version = 1;
    r.remote_v6[15] = 9;
    r.remote_v6[0] = 0x20;
    r.ip_protocol = 6;
    r.flags = 256 | 4;
    let raw = decode(&r, 1).unwrap();
    assert!(!raw.inbound);
    assert!(!raw.is_new);
    assert!(!raw.udp);
    assert_eq!(raw.remote_ip, v6((0x20 << 120) | 9));
    assert_eq!(raw.app_id, None);
    assert_eq!(raw.app_path, None);
}

#[test]
fn other_events_are_ignored() {
    let mut r = record();
    r.event_type = 1;
    assert_eq!(decode(&r, 1), None);
    let mut r = record();
    r.details = None;
    assert_eq!(decode(&r, 1), None);
    let mut r = record();
    r.flags = 256;
    assert_eq!(decode(&r, 1), None);
    r.flags = 4;
    assert_eq!(decode(&r, 1), None);
    let mut r = record();
    r.ip_version = 2;
    assert_eq!(decode(&r, 1), None);
    let mut r = record();
    r.app_id = Some(vec![65]);
    assert_eq!(decode(&r, 1).unwrap().app_path, None);
    r.app_id = Some(vec![65, 0, 66]);
    assert_eq!(decode(&r, 1).unwrap().app_path, Some("A".to_string()));
    r.app_id = Some(vec![0x00, 0xd8]);
    assert_eq!(decode(&r, 1).unwrap().app_path, Some("\u{fffd}".to_string()));
}

#[test]
fn code_units_are_decoded() {
    let text = |units: &[u16]| text_up_to_nul(&units.to_vec());
    assert_eq!(text(&[]), "");
    assert_eq!(text(&[0x41, 0xe4, 0x20ac]), "A\u{e4}\u{20ac}");
    assert_eq!(text(&[0xd7ff, 0xe000, 0xffff]), "\u{d7ff}\u{e000}\u{ffff}");
    assert_eq!(text(&[0xd83d, 0xde00]), "\u{1f600}");
    assert_eq!(text(&[0xd800, 0xdc00]), "\u{10000}");
    assert_eq!(text(&[0xdbff, 0xdfff]), "\u{10ffff}");
    assert_eq!(text(&[0xd83d]), "\u{fffd}");
    assert_eq!(text(&[0xde00, 0x41]), "\u{fffd}A");
    assert_eq!(text(&[0xd83d, 0x41]), "\u{fffd}A");
    assert_eq!(text(&[0xd83d, 0xd83d, 0xde00]), "\u{fffd}\u{1f600}");
    assert_eq!(text(&[0xde00, 0xd83d]), "\u{fffd}\u{fffd}");
    assert_eq!(text(&[0x41, 0, 0x42]), "A");
}

#[test]
fn packages_are_read_where_set() {
    let mut r = record();
    assert!(!reads_package(&r));
    r.flags |= 1024;
    assert!(reads_package(&r));
    r.has_package = false;
    assert!(!reads_package(&r));
}

#[test]
fn account_names_are_composed() {
    let units = |s: &str| s.encode_utf16().collect::<Vec<u16>>();
    assert_eq!(account_name(&units("svc\0x"), &units("NT\0")), Some("NT\\svc".to_string()));
    assert_eq!(account_name(&units("svc"), &units(" \0")), Some("svc".to_string()));
    assert_eq!(account_name(&units("\u{2003} \0"), &units("NT")), None);
    assert_eq!(compose_account_name("a", "b"), Some("b\\a".to_string()));
    assert_eq!(compose_account_name("", "b"), None);
}

#[test]
fn paths_have_no_identifier_without_a_packet_filter() {
    assert_eq!(app_id_from_path("C:\\a.exe"), None);
}

#[test]
fn simulator_hands_out_handles() {
    let mut fw = SimFirewall::start().unwrap();
    assert_eq!(fw.backend(), "Simulator");
    assert_eq!(fw.block_ip(v4(1, 1, 1, 1)), Ok(1));
    assert_eq!(fw.block_app(&vec![1], AppProtocol::All), Ok(2));
    assert_eq!(fw.block_app_target(&vec![1], AppProtocol::Udp, None, None), Ok(3));
    assert_eq!(fw.unblock(1), Ok(()));
    assert_eq!(fw.block_ip(v4(1, 1, 1, 1)), Ok(4));
}

#[test]
fn generator_follows_its_formula() {
    let mut state = 0x9E37_79B9_7F4A_7C15u64 ^ 1234;
    let mut r = Rng::new(state);
    for i in 0..1000u64 {
        state ^= state << 13;
        state ^= state >> 7;
        state ^= state << 17;
        if i % 2 == 0 {
            assert_eq!(r.next(), state);
        } else {
            assert_eq!(r.upto(i), state % i);
        }
        assert_ne!(state, 0);
    }
    let mut zero = Rng::new(0);
    assert_eq!(zero.next(), 0);
    assert_eq!(Rng::new(7).upto(0), 0);
}

/// The traffic of one round, drawn by hand.
struct Reference {
    state: u64,
    attack: Option<(bool, IpAddr, u32, u16)>,
}

impl Reference {
    fn upto(&mut self, n: u64) -> u64 {
        self.state ^= self.state << 13;
        self.state ^= self.state >> 7;
        self.state ^= self.state << 17;
        self.state % n.max(1)
    }

    fn ip(&mut self) -> IpAddr {
        let a = 185 + self.upto(3) as u8;
        let b = self.upto(255) as u8;
        let c = self.upto(255) as u8;
        let d = 1 + self.upto(254) as u8;
        v4(a, b, c, d)
    }

    fn conn(t: u64, ip: IpAddr, remote_port: u16, local_port: u16) -> RawConn {
        RawConn {
            ts_ms: t,
            inbound: true,
            is_new: true,
            udp: false,
            remote_ip: ip,
            remote_port,
            local_port,
            pid: 0,
            app_id: None,
            app_path: None,
        }
    }

    fn round(&mut self, t: u64) -> Vec<RawConn> {
        let mut out = Vec::new();
        for _ in 0..8 + self.upto(10) {
            let inbound = self.upto(10) < 6;
            let udp = self.upto(10) < 3;
            let ip = self.ip();
            let remote_port = 1024 + self.upto(60000) as u16;
            let local_port = [80u16, 443, 22, 3389, 53][self.upto(5) as usize];
            let pid = 1000 + self.upto(400) as u32;
            out.push(RawConn { inbound, udp, pid, ..Self::conn(t, ip, remote_port, local_port) });
        }
        if self.attack.is_none() && self.upto(100) < 8 {
            let ip = self.ip();
            let flood = self.upto(2) == 0;
            let left = if flood { 4 + self.upto(6) } else { 4 + self.upto(4) };
            self.attack = Some((flood, ip, left as u32, 1));
        }
        if let Some((flood, ip, left, mut port)) = self.attack {
            if flood {
                for _ in 0..80 + self.upto(60) {
                    let remote_port = 40000 + self.upto(20000) as u16;
                    out.push(Self::conn(t, ip, remote_port, 443));
                }
            } else {
                for _ in 0..25 {
                    out.push(Self::conn(t, ip, 44444, port));
                    port = port.wrapping_add(1).max(1);
                }
            }
            self.attack = if left == 1 { None } else { Some((flood, ip, left - 1, port)) };
        }
        out
    }
}

#[test]
fn simulated_traffic_follows_the_generator() {
    let mut sim = Simulator::new(42);
    let mut reference = Reference { state: 0x9E37_79B9_7F4A_7C15 ^ 42, attack: None };
    let mut attacks = 0;
    for t in 0..400u64 {
        let expected = reference.round(t * 1000);
        assert_eq!(sim.step(t * 1000), expected, "round {t}");
        if reference.attack.is_some() {
            attacks += 1;
        }
    }
    assert!(attacks > 0);
}

#[test]
fn simulated_floods_are_caught() {
    let mut sim = Simulator::new(42);
    let mut engine = Engine::new(Config::default());
    let mut blocked = 0;
    for t in 0..400u64 {
        for raw in sim.step(t * 1000) {
            if engine.inspect(&raw_to_event(&raw)) != Verdict::Pass {
                blocked += 1;
            }
        }
        engine.tick(t * 1000);
    }
    assert!(blocked > 0);
}
