//! Where observations come from: the tables of active connections, and the
//! simulator.

use vstd::prelude::*;
use vstd::string::*;

use crate::active_connections;
use crate::active_connections::{
    port, process_name, process_path, snapshot, tcp4, tcp6, udp, v4, ActiveConnection, Endpoint,
    Processes, Tables, Tcp4Row, Tcp6Row, UdpRow,
};
use crate::apps;
use crate::history;
use crate::ip;
use crate::ip::{IpAddr, Ipv4Addr};
use crate::text;
use crate::wfp::netevent;
use crate::wfp::sim;
use crate::wfp::sim::{Attack, SimFirewall, Simulator};
use crate::wfp::{AppProtocol, Firewall, RawConn, RemoteMatch, Request};

verus! {

/// A port stands in its entry with the more significant byte first, whatever
/// stands in the rest.
pub proof fn ports_are_in_network_order(value: u32, first: u8, second: u8, rest: int, r: u16)
    requires
        call_ensures(port, (value,), r),
        0 <= rest,
        value == first + 256 * second + 65536 * rest,
    ensures
        r == 256 * first + second,
{
    vstd::arithmetic::div_mod::lemma_fundamental_div_mod_converse(
        value as int,
        256,
        second + 256 * rest,
        first as int,
    );
    vstd::arithmetic::div_mod::lemma_fundamental_div_mod_converse(
        second + 256 * rest,
        256,
        rest,
        second as int,
    );
}

/// An address stands in its entry with the first octet first.
pub proof fn addresses_are_in_network_order(value: u32, a: u8, b: u8, c: u8, d: u8, r: Ipv4Addr)
    requires
        call_ensures(v4, (value,), r),
        value == a + 256 * b + 0x1_0000 * c + 0x100_0000 * d,
    ensures
        r.bits == 0x100_0000 * a + 0x1_0000 * b + 256 * c + d,
{
    let n = value as int;
    vstd::arithmetic::div_mod::lemma_fundamental_div_mod_converse(
        n,
        256,
        b + 256 * c + 0x1_0000 * d,
        a as int,
    );
    vstd::arithmetic::div_mod::lemma_fundamental_div_mod_converse(
        b + 256 * c + 0x1_0000 * d,
        256,
        c + 256 * d,
        b as int,
    );
    vstd::arithmetic::div_mod::lemma_fundamental_div_mod_converse(
        n,
        0x1_0000,
        c + 256 * d,
        a + 256 * b,
    );
    vstd::arithmetic::div_mod::lemma_fundamental_div_mod_converse(
        c + 256 * d,
        256,
        d as int,
        c as int,
    );
    vstd::arithmetic::div_mod::lemma_fundamental_div_mod_converse(
        n,
        0x100_0000,
        d as int,
        a + 256 * b + 0x1_0000 * c,
    );
}

/// The number with the two low bytes of an entry swapped.
pub open spec fn swapped(value: u32) -> int {
    256 * (value as int % 256) + (value as int / 256) % 256
}

/// `e` is the connection of a row of the TCP table for IPv4.
pub open spec fn of_tcp4(row: Tcp4Row, e: Endpoint) -> bool {
    &&& !e.udp
    &&& e.remote_port == swapped(row.remote_port)
    &&& e.local_port == swapped(row.local_port)
    &&& e.pid == row.pid
    &&& e.remote_ip matches IpAddr::V4(a) && a.bits == (row.remote_addr as int % 256) * 0x100_0000
        + (row.remote_addr as int / 256) % 256 * 0x1_0000 + (row.remote_addr as int / 0x1_0000)
        % 256 * 256 + row.remote_addr as int / 0x100_0000
}

proof fn lemma_v4_zero(value: u32)
    ensures
        active_connections::v4_of(value).bits == 0 <==> value == 0,
        active_connections::v4_of(value).bits == (value as int % 256) * 0x100_0000 + (value as int
            / 256) % 256 * 0x1_0000 + (value as int / 0x1_0000) % 256 * 256 + value as int
            / 0x100_0000,
{
}

/// The rows of the TCP table for IPv4 that have a remote address, and no others,
/// are connections, in their order.
pub proof fn tcp4_rows_with_a_remote_side(rows: Vec<Tcp4Row>, r: Vec<Endpoint>)
    requires
        call_ensures(tcp4, (&rows,), r),
    ensures
        ({
            let kept = rows@.filter(|row: Tcp4Row| row.remote_addr != 0);
            r@.len() == kept.len() && forall|i: int|
                0 <= i < r@.len() ==> of_tcp4(kept[i], #[trigger] r@[i])
        }),
{
    let f = |r: Tcp4Row| active_connections::tcp4_endpoint(r);
    let q = active_connections::connected();
    history::lemma_map_filter(rows@, f, q);
    assert forall|row: Tcp4Row| #[trigger] q(f(row)) == (row.remote_addr != 0) by {
        lemma_v4_zero(row.remote_addr);
    }
    assert((|a: Tcp4Row| q(f(a))) =~= (|row: Tcp4Row| row.remote_addr != 0));
    let kept = rows@.filter(|row: Tcp4Row| row.remote_addr != 0);
    assert forall|i: int| 0 <= i < r@.len() implies of_tcp4(kept[i], #[trigger] r@[i]) by {
        lemma_v4_zero(kept[i].remote_addr);
    }
}

/// `e` is the connection of a row of the TCP table for IPv6.
pub open spec fn of_tcp6(row: Tcp6Row, e: Endpoint) -> bool {
    &&& !e.udp
    &&& e.remote_port == swapped(row.remote_port)
    &&& e.local_port == swapped(row.local_port)
    &&& e.pid == row.pid
    &&& e.remote_ip matches IpAddr::V6(a) && a.bits == ip::from_big_endian(row.remote_addr@) as u128
}

/// The rows of the TCP table for IPv6 that have a remote address, and no others,
/// are connections, in their order.
pub proof fn tcp6_rows_with_a_remote_side(rows: Vec<Tcp6Row>, r: Vec<Endpoint>)
    requires
        call_ensures(tcp6, (&rows,), r),
    ensures
        ({
            let kept = rows@.filter(
                |row: Tcp6Row| ip::from_big_endian(row.remote_addr@) as u128 != 0,
            );
            r@.len() == kept.len() && forall|i: int|
                0 <= i < r@.len() ==> of_tcp6(kept[i], #[trigger] r@[i])
        }),
{
    let f = |r: Tcp6Row| active_connections::tcp6_endpoint(r);
    let q = active_connections::connected();
    let p = |row: Tcp6Row| ip::from_big_endian(row.remote_addr@) as u128 != 0;
    history::lemma_map_filter(rows@, f, q);
    assert((|a: Tcp6Row| q(f(a))) =~= p);
    let kept = rows@.filter(p);
    assert forall|i: int| 0 <= i < r@.len() implies of_tcp6(kept[i], #[trigger] r@[i]) by {
        assert(r@[i] == f(kept[i]));
    }
}

/// Every row of a UDP table is listed, in order, with no remote side.
pub proof fn udp_rows_have_no_remote_side(rows: Vec<UdpRow>, unspecified: IpAddr, r: Vec<Endpoint>)
    requires
        call_ensures(udp, (&rows, unspecified), r),
    ensures
        r@.len() == rows@.len(),
        forall|i: int|
            0 <= i < r@.len() ==> {
                let e = #[trigger] r@[i];
                &&& e.udp
                &&& e.remote_ip == unspecified
                &&& e.remote_port == 0
                &&& e.local_port == swapped(rows@[i].local_port)
                &&& e.pid == rows@[i].pid
            },
{
}

/// The connections of all tables are those of each: TCP before UDP, IPv4 before
/// IPv6. The remote side of UDP is the unspecified address of its family.
pub proof fn all_tables_are_listed(
    t: Tables,
    r: Vec<Endpoint>,
    a: Vec<Endpoint>,
    b: Vec<Endpoint>,
    c: Vec<Endpoint>,
    d: Vec<Endpoint>,
    zero4: IpAddr,
    zero6: IpAddr,
)
    requires
        call_ensures(Tables::endpoints, (&t,), r),
        call_ensures(tcp4, (&t.tcp4,), a),
        call_ensures(tcp6, (&t.tcp6,), b),
        call_ensures(udp, (&t.udp4, zero4), c),
        call_ensures(udp, (&t.udp6, zero6), d),
        zero4 matches IpAddr::V4(x) && x.bits == 0,
        zero6 matches IpAddr::V6(x) && x.bits == 0,
    ensures
        r@ == a@ + b@ + c@ + d@,
{
    let z4 = IpAddr::V4(Ipv4Addr { bits: 0 });
    let z6 = IpAddr::V6(ip::Ipv6Addr { bits: 0 });
    assert(zero4 == z4 && zero6 == z6);
    assert((|r: UdpRow| active_connections::udp_endpoint(r, zero4)) =~= (|r: UdpRow|
        active_connections::udp_endpoint(r, z4)));
    assert((|r: UdpRow| active_connections::udp_endpoint(r, zero6)) =~= (|r: UdpRow|
        active_connections::udp_endpoint(r, z6)));
}

/// A process is named by its executable, where that is known; else it is the idle
/// process, the system, or known by its number.
pub proof fn processes_are_named(path: Option<String>, pid: u32, r: String)
    requires
        call_ensures(process_name, (&path, pid), r),
    ensures
        path matches Some(p) ==> r@ == apps::name_of(p@),
        path is None && pid == 0 ==> r@ == "System Idle"@,
        path is None && pid == 4 ==> r@ == "System"@,
        path is None && pid != 0 && pid != 4 ==> r@ == "pid "@ + text::decimal(pid as nat),
{
}

/// The path of a process is the text of its code units, and there is none where
/// there are none.
pub proof fn process_paths_are_read(units: Vec<u16>, r: Option<String>)
    requires
        call_ensures(process_path, (&units,), r),
    ensures
        r is None <==> units@.len() == 0,
        r matches Some(p) ==> p@ == netevent::utf16_text(units@),
{
}

/// A process is asked for once: what was remembered of it is known and read back,
/// and other processes are untouched. The idle process is never asked for.
pub proof fn processes_are_asked_for_once(
    p: &mut Processes,
    pid: u32,
    path: Option<String>,
    q: Processes,
    known: bool,
    info: (Option<String>, String),
    other: u32,
)
    requires
        call_ensures(Processes::remember, (p, pid, path), ()),
        q@ == final(p)@,
        call_ensures(Processes::knows, (&q, other), known),
        call_ensures(Processes::process_info, (&q, pid), info),
    ensures
        known <==> other == 0 || other == pid || old(p)@.contains_key(other),
        text::text_option(info.0) == text::text_option(path),
        path matches Some(t) ==> info.1@ == apps::name_of(t@),
        other != pid && old(p)@.contains_key(other) ==> final(p)@[other] == old(p)@[other],
{
}

/// A snapshot has every connection, in order, with the protocol, addresses and
/// ports of its row and what is known of its process.
pub proof fn snapshot_maps_connections_to_processes(
    endpoints: Vec<Endpoint>,
    processes: Processes,
    r: Vec<ActiveConnection>,
    i: int,
    info: (Option<String>, String),
)
    requires
        call_ensures(snapshot, (&endpoints, &processes), r),
        0 <= i < endpoints@.len(),
        call_ensures(Processes::process_info, (&processes, endpoints@[i].pid), info),
    ensures
        r@.len() == endpoints@.len(),
        r@[i].protocol@ == (if endpoints@[i].udp {
            "udp"@
        } else {
            "tcp"@
        }),
        r@[i].remote_ip == endpoints@[i].remote_ip,
        r@[i].remote_port == endpoints@[i].remote_port,
        r@[i].local_port == endpoints@[i].local_port,
        r@[i].pid == endpoints@[i].pid,
        text::text_option(r@[i].app_path) == text::text_option(info.0),
        r@[i].app_name@ == info.1@,
{
    let out = active_connections::connections_view(r@);
    assert(out.len() == r@.len());
    assert(out[i] == r@[i]@);
    assert(out[i] == active_connections::connection_of(endpoints@[i], processes@));
}

/// Every round of the simulator has eight to seventeen ordinary connections. An
/// attack adds to it, from one source: a flood, 80 to 139 connections to one port;
/// a scan, 25 connections to ports in a row. All are new and of that time.
pub proof fn simulated_rounds(s: &mut Simulator, t: u64, r: Vec<RawConn>)
    requires
        old(s)@.wf(),
        call_ensures(Simulator::step, (s, t), r),
    ensures
        exists|n: int| #[trigger] simulated_round(old(s)@.attack, r@, t, n),
{
    let m = old(s)@;
    let l = m.launched();
    let n = m.benign_count();
    let c = sim::conns_view(r@);
    assert(c.len() == r@.len());
    assert forall|i: int| 0 <= i < r@.len() implies #[trigger] r@[i]@ == c[i] by {
    }
    assert(0 <= sim::drawn(m.rng, 1, 10) < 10);
    if l.attack is Some {
        assert(0 <= sim::drawn(l.rng, 1, 60) < 60);
        assert forall|i: int| n <= i < r@.len() implies {
            let x = #[trigger] r@[i];
            &&& x.inbound
            &&& !x.udp
            &&& x.remote_ip == l.attack->0.source()
        } by {
            assert(r@[i]@ == l.hostile_traffic(t)[i - n]);
        }
        if l.attack->0 is Flood {
            assert forall|i: int| n <= i < r@.len() implies (#[trigger] r@[i]).local_port
                == 443 by {
                assert(r@[i]@ == l.hostile_traffic(t)[i - n]);
            }
        } else {
            assert forall|i: int| n <= i < r@.len() implies (#[trigger] r@[i]).local_port as int
                == (l.attack->0->port - 1 + (i - n)) % 65535 + 1 by {
                assert(r@[i]@ == l.hostile_traffic(t)[i - n]);
            }
        }
    }
    assert forall|i: int| 0 <= i < r@.len() implies {
        let x = #[trigger] r@[i];
        x.ts_ms == t && x.is_new && x.app_id is None && x.app_path is None
    } by {
        if i < n {
            assert(r@[i]@ == m.benign_traffic(t)[i]);
        } else {
            assert(r@[i]@ == l.hostile_traffic(t)[i - n]);
        }
    }
    assert(r@.len() == n + l.hostile_count());
    if l.attack is Some {
        let part = r@.skip(n);
        assert forall|i: int| 0 <= i < part.len() implies #[trigger] part[i] == r@[n + i] by {
        }
        assert(attack_round(l.attack->0, part));
    }
    assert(simulated_round(m.attack, r@, t, n));
}

/// `c` is a round of traffic of which the first `n` connections are ordinary.
pub open spec fn simulated_round(
    attack: Option<Attack>,
    c: Seq<RawConn>,
    t: u64,
    n: int,
) -> bool {
    &&& 8 <= n <= 17
    &&& n <= c.len()
    &&& forall|i: int|
        0 <= i < c.len() ==> {
            let x = #[trigger] c[i];
            x.ts_ms == t && x.is_new && x.app_id is None && x.app_path is None
        }
    &&& attack is Some ==> c.len() > n
    &&& c.len() > n ==> exists|a: Attack| #[trigger]
        attack_round(a, c.skip(n)) && (attack matches Some(b) ==> a == b)
}

/// `c` are the connections of one round of an attack.
pub open spec fn attack_round(a: Attack, c: Seq<RawConn>) -> bool {
    match a {
        Attack::Flood { ip, .. } => 80 <= c.len() <= 139 && forall|i: int|
            0 <= i < c.len() ==> {
                let x = #[trigger] c[i];
                x.inbound && !x.udp && x.remote_ip == ip && x.local_port == 443
            },
        Attack::Scan { ip, port, .. } => c.len() == 25 && forall|i: int|
            0 <= i < c.len() ==> {
                let x = #[trigger] c[i];
                x.inbound && !x.udp && x.remote_ip == ip && x.local_port as int == (port - 1 + i)
                    % 65535 + 1
            },
    }
}

/// The simulated packet filter agrees to everything and hands out a new handle
/// each time; lifting a block is always possible.
pub proof fn simulated_filter_agrees(
    f: &mut SimFirewall,
    ip: IpAddr,
    a: Result<u64, String>,
    g: &mut SimFirewall,
    app_id: Vec<u8>,
    protocol: AppProtocol,
    b: Result<u64, String>,
    h: &mut SimFirewall,
    handle: u64,
    c: Result<(), String>,
)
    requires
        call_ensures(<SimFirewall as Firewall>::block_ip, (f, ip), a),
        old(g)@ == final(f)@,
        call_ensures(<SimFirewall as Firewall>::block_app, (g, &app_id, protocol), b),
        call_ensures(<SimFirewall as Firewall>::unblock, (h, handle), c),
    ensures
        a is Ok,
        b is Ok,
        a != b,
        c is Ok,
{
}

/// The simulated packet filter starts with the first handle and nothing asked of
/// it, notes what is asked of it, and says what it is.
pub proof fn simulated_filter_starts_blank(
    r: Result<SimFirewall, String>,
    f: &mut SimFirewall,
    app_id: Vec<u8>,
    protocol: AppProtocol,
    remote: Option<RemoteMatch>,
    port: Option<u16>,
    a: Result<u64, String>,
    g: SimFirewall,
    name: &'static str,
)
    requires
        call_ensures(SimFirewall::start, (), r),
        call_ensures(
            <SimFirewall as Firewall>::block_app_target,
            (f, &app_id, protocol, remote, port),
            a,
        ),
        call_ensures(<SimFirewall as Firewall>::backend, (&g,), name),
    ensures
        r matches Ok(x) && x@.asked.len() == 0 && x@.next_handle == 1,
        a == Ok::<u64, String>(old(f)@.next_handle),
        final(f)@.asked == old(f)@.asked.push(
            Request::BlockAppTarget {
                app_id: app_id@,
                protocol,
                remote,
                remote_port: port,
                reply: Ok(old(f)@.next_handle),
            },
        ),
        name@ == "Simulator"@,
{
}

/// No tables, no connections.
pub proof fn empty_tables_list_nothing(t: Tables, r: Vec<Endpoint>)
    requires
        call_ensures(Tables::empty, (), t),
        call_ensures(Tables::endpoints, (&t,), r),
    ensures
        r@.len() == 0,
{
    reveal(Seq::filter);
}

} // verus!
