use m0untain::active_connections::{
    aligned_buffer, port, process_name, process_path, snapshot, v4, ActiveConnection, Endpoint,
    Processes, Tables, Tcp4Row, Tcp6Row, UdpRow,
};
use m0untain::feed::{
    active_to_raw, connection_seen, distinct_connections, inspects_snapshot, protocol_str,
    raw_to_event, snapshot_seen,
};
use m0untain::wfp::RawConn;
use m0untain::{Action, BlockReason, Direction, IpAddr, Ipv4Addr, Ipv6Addr, Proto, Verdict};

fn ip(n: u8) -> IpAddr {
    IpAddr::V4(Ipv4Addr::new(192, 0, 2, n))
}

#[test]
fn table_numbers_are_in_network_order() {
    assert_eq!(port(0x5000), 80);
    assert_eq!(port(0xffff_bb01), 443);
    assert_eq!(v4(0x0102_a8c0), Ipv4Addr::new(192, 168, 2, 1));
    for x in [0u32, 1, 0xdead_beef, u32::MAX, 0x5000] {
        assert_eq!(port(x), u16::from_be_bytes([x.to_le_bytes()[0], x.to_le_bytes()[1]]));
        let b = x.to_le_bytes();
        assert_eq!(v4(x), Ipv4Addr::new(b[0], b[1], b[2], b[3]));
    }
}

fn tables() -> Tables {
    let mut six = [0u8; 16];
    six[15] = 1;
    Tables {
        tcp4: vec![
            Tcp4Row { remote_addr: 0x0102_a8c0, remote_port: 0xbb01, local_port: 0x5000, pid: 10 },
            Tcp4Row { remote_addr: 0, remote_port: 0, local_port: 0x5000, pid: 11 },
        ],
        tcp6: vec![
            Tcp6Row { remote_addr: [0; 16], remote_port: 0, local_port: 1, pid: 12 },
            Tcp6Row { remote_addr: six, remote_port: 0x5000, local_port: 0x0100, pid: 4 },
        ],
        udp4: vec![UdpRow { local_port: 0x3500, pid: 0 }],
        udp6: vec![UdpRow { local_port: 0x3500, pid: 13 }],
    }
}

#[test]
fn snapshot_lists_connections_with_their_processes() {
    let endpoints = tables().endpoints();
    let pids: Vec<u32> = endpoints.iter().map(|e| e.pid).collect();
    assert_eq!(pids, vec![10, 4, 0, 13]);
    assert_eq!(
        endpoints[1],
        Endpoint {
            udp: false,
            remote_ip: IpAddr::V6(Ipv6Addr { bits: 1 }),
            remote_port: 80,
            local_port: 1,
            pid: 4,
        }
    );
    let mut known = Processes::new();
    assert!(known.knows(0));
    assert!(!known.knows(10));
    known.remember(10, Some("C:\\a\\b.exe".to_string()));
    known.remember(4, None);
    assert!(known.knows(10));
    let conns = snapshot(&endpoints, &known);
    assert_eq!(
        conns[0],
        ActiveConnection {
            protocol: "tcp",
            remote_ip: IpAddr::V4(Ipv4Addr::new(192, 168, 2, 1)),
            remote_port: 443,
            local_port: 80,
            pid: 10,
            app_path: Some("C:\\a\\b.exe".to_string()),
            app_name: "b.exe".to_string(),
        }
    );
    assert_eq!(conns[1].app_name, "System");
    assert_eq!(conns[2].app_name, "System Idle");
    assert_eq!(conns[2].protocol, "udp");
    assert_eq!(conns[2].remote_ip, IpAddr::V4(Ipv4Addr::unspecified()));
    assert_eq!(conns[2].local_port, 53);
    assert_eq!(conns[3].app_name, "pid 13");
    assert_eq!(conns[3].remote_ip, IpAddr::V6(Ipv6Addr::unspecified()));
    assert!(snapshot(&Tables::empty().endpoints(), &known).is_empty());
}

#[test]
fn process_paths_and_names() {
    let units: Vec<u16> = "C:\\x.exe".encode_utf16().collect();
    assert_eq!(process_path(&units), Some("C:\\x.exe".to_string()));
    assert_eq!(process_path(&Vec::new()), None);
    assert_eq!(process_name(&Some("C:\\x.exe".to_string()), 0), "x.exe");
    assert_eq!(process_name(&None, 4), "System");
    assert_eq!(process_name(&None, 4_294_967_295), "pid 4294967295");
}

#[test]
fn buffers_hold_whole_words() {
    let word = std::mem::size_of::<usize>();
    for size in [0u32, 1, 7, 8, 9, 1000, 65_537] {
        let b = aligned_buffer(size);
        assert_eq!(b.len(), (size as usize).div_ceil(word));
        assert!(b.iter().all(|w| *w == 0));
    }
}

fn raw() -> RawConn {
    RawConn {
        ts_ms: 1_700,
        inbound: true,
        is_new: true,
        udp: true,
        remote_ip: ip(7),
        remote_port: 40_000,
        local_port: 443,
        pid: 77,
        app_id: None,
        app_path: None,
    }
}

#[test]
fn observations_become_events() {
    let mut r = raw();
    r.app_path = Some("C:\\a.exe".to_string());
    let ev = raw_to_event(&r);
    assert_eq!(ev.ts_ms, 1_700);
    assert_eq!(ev.direction, Direction::Inbound);
    assert_eq!(ev.proto, Proto::Udp);
    assert_eq!(ev.local_ip, IpAddr::V4(Ipv4Addr::unspecified()));
    assert_eq!(ev.local_port, 443);
    assert_eq!(ev.remote_ip, ip(7));
    assert_eq!(ev.remote_port, 40_000);
    assert_eq!(ev.pid, 77);
    assert_eq!(ev.app_path, Some("C:\\a.exe".to_string()));
    assert_eq!(ev.service_sid, None);
    assert!(ev.is_new_conn);
    assert_eq!(ev.action, Action::Allow);
    r.inbound = false;
    r.udp = false;
    assert_eq!(raw_to_event(&r).direction, Direction::Outbound);
    assert_eq!(raw_to_event(&r).proto, Proto::Tcp);
}

#[test]
fn connections_are_shown_with_their_verdict() {
    let seen = connection_seen(&raw(), &Verdict::Pass);
    assert_eq!(seen.id, "1700-77-192.0.2.7-40000");
    assert_eq!(seen.app_name, "pid 77");
    assert_eq!(seen.app_path, None);
    assert_eq!(seen.direction, "inbound");
    assert_eq!(seen.protocol, "udp");
    assert_eq!(seen.remote_ip, "192.0.2.7");
    assert_eq!(seen.verdict, "allow");
    assert_eq!(seen.reason, None);
    assert!(seen.is_new_conn);
    let mut r = raw();
    r.inbound = false;
    r.udp = false;
    r.app_path = Some("C:\\x\\y.exe".to_string());
    assert_eq!(protocol_str(&r), "tcp");
    for reason in [
        BlockReason::RateLimit,
        BlockReason::PortScan,
        BlockReason::Manual,
        BlockReason::Blocklist,
    ] {
        let seen = connection_seen(&r, &Verdict::Block { until_ms: 9, reason });
        assert_eq!(seen.app_name, "y.exe");
        assert_eq!(seen.direction, "outbound");
        assert_eq!(seen.verdict, "block");
        assert_eq!(seen.reason, Some(format!("{reason:?}")));
    }
}

fn conn(protocol: &'static str, n: u8, pid: u32) -> ActiveConnection {
    ActiveConnection {
        protocol,
        remote_ip: ip(n),
        remote_port: 443,
        local_port: 5_000,
        pid,
        app_path: Some("C:\\a.exe".to_string()),
        app_name: "a.exe".to_string(),
    }
}

#[test]
fn snapshots_are_shown() {
    let seen = snapshot_seen(&conn("tcp", 9, 3), 12);
    assert_eq!(seen.id, "snapshot-tcp-3-5000-192.0.2.9-443");
    assert_eq!(seen.ts_ms, 12);
    assert_eq!(seen.direction, "outbound");
    assert_eq!(seen.protocol, "tcp");
    assert_eq!(seen.verdict, "allow");
    assert_eq!(seen.reason, Some("active-snapshot".to_string()));
    assert!(!seen.is_new_conn);
    let raw = active_to_raw(&conn("udp", 9, 3), Some(vec![1]), 12);
    assert!(raw.udp);
    assert!(!raw.inbound);
    assert!(raw.is_new);
    assert_eq!(raw.app_id, Some(vec![1]));
    assert!(!inspects_snapshot(&raw));
    let raw = active_to_raw(&conn("tcp", 9, 3), None, 12);
    assert!(!raw.udp);
    assert!(inspects_snapshot(&raw));
    let mut listening = conn("tcp", 9, 3);
    listening.remote_ip = IpAddr::V6(Ipv6Addr::unspecified());
    assert!(!inspects_snapshot(&active_to_raw(&listening, None, 1)));
}

#[test]
fn snapshots_show_each_connection_once() {
    let mut renamed = conn("tcp", 1, 1);
    renamed.app_name = "other".to_string();
    let all = vec![conn("tcp", 1, 1), conn("udp", 1, 1), renamed, conn("tcp", 1, 2), conn("udp", 1, 1)];
    let once = distinct_connections(&all);
    assert_eq!(once, vec![conn("tcp", 1, 1), conn("udp", 1, 1), conn("tcp", 1, 2)]);
}
