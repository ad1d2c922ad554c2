//! Snapshots of the active connections: the rows of the system's connection
//! tables, mapped back to processes.

use std::collections::HashMap;

use vstd::prelude::*;
use vstd::string::*;

use crate::apps;
use crate::apps::app_name;
use crate::ip;
use crate::ip::{IpAddr, Ipv4Addr, Ipv6Addr};
use crate::text;
use crate::wfp::netevent;
use crate::wfp::netevent::decode_utf16;

verus! {

#[derive(Debug, PartialEq, Eq)]
pub struct ActiveConnection {
    /// "tcp" or "udp".
    pub protocol: &'static str,
    pub remote_ip: IpAddr,
    pub remote_port: u16,
    pub local_port: u16,
    pub pid: u32,
    pub app_path: Option<String>,
    pub app_name: String,
}

#[verifier::ext_equal]
pub struct ConnectionModel {
    pub protocol: Seq<char>,
    pub remote_ip: IpAddr,
    pub remote_port: u16,
    pub local_port: u16,
    pub pid: u32,
    pub app_path: Option<Seq<char>>,
    pub app_name: Seq<char>,
}

impl View for ActiveConnection {
    type V = ConnectionModel;

    open spec fn view(&self) -> ConnectionModel {
        ConnectionModel {
            protocol: self.protocol@,
            remote_ip: self.remote_ip,
            remote_port: self.remote_port,
            local_port: self.local_port,
            pid: self.pid,
            app_path: text::text_option(self.app_path),
            app_name: self.app_name@,
        }
    }
}

impl Clone for ActiveConnection {
    fn clone(&self) -> (r: Self)
        ensures
            r@ == self@,
    {
        ActiveConnection {
            protocol: self.protocol,
            remote_ip: self.remote_ip,
            remote_port: self.remote_port,
            local_port: self.local_port,
            pid: self.pid,
            app_path: text::copy_text_option(&self.app_path),
            app_name: self.app_name.clone(),
        }
    }
}

/// A row of the TCP table for IPv4. Addresses and ports are in network byte
/// order, in the memory of a little-endian machine.
#[derive(Debug, Clone, Copy, PartialEq, Eq, Structural)]
pub struct Tcp4Row {
    pub remote_addr: u32,
    pub remote_port: u32,
    pub local_port: u32,
    pub pid: u32,
}

/// A row of the TCP table for IPv6.
#[derive(Debug, Clone, Copy, PartialEq, Eq)]
pub struct Tcp6Row {
    pub remote_addr: [u8; 16],
    pub remote_port: u32,
    pub local_port: u32,
    pub pid: u32,
}

/// A row of a UDP table, which knows no remote side.
#[derive(Debug, Clone, Copy, PartialEq, Eq, Structural)]
pub struct UdpRow {
    pub local_port: u32,
    pub pid: u32,
}

/// The system's connection tables.
pub struct Tables {
    pub tcp4: Vec<Tcp4Row>,
    pub tcp6: Vec<Tcp6Row>,
    pub udp4: Vec<UdpRow>,
    pub udp6: Vec<UdpRow>,
}

/// A connection before it is mapped to a process.
#[derive(Debug, Clone, Copy, PartialEq, Eq, Structural)]
pub struct Endpoint {
    pub udp: bool,
    pub remote_ip: IpAddr,
    pub remote_port: u16,
    pub local_port: u16,
    pub pid: u32,
}

/// The port in a table entry: its first byte is the more significant one.
pub open spec fn port_of(value: u32) -> u16 {
    (value % 256 * 256 + value / 256 % 256) as u16
}

pub fn port(value: u32) -> (r: u16)
    ensures
        r == port_of(value),
{
    (value % 256 * 256 + value / 256 % 256) as u16
}

/// The address in a table entry: its first byte is the first octet.
pub open spec fn v4_of(value: u32) -> Ipv4Addr {
    Ipv4Addr {
        bits: (value % 256 * 0x100_0000 + value / 256 % 256 * 0x1_0000 + value / 0x1_0000 % 256
            * 256 + value / 0x100_0000) as u32,
    }
}

pub fn v4(value: u32) -> (r: Ipv4Addr)
    ensures
        r == v4_of(value),
{
    Ipv4Addr::new(
        (value % 256) as u8,
        (value / 256 % 256) as u8,
        (value / 0x1_0000 % 256) as u8,
        (value / 0x100_0000) as u8,
    )
}

pub open spec fn tcp4_endpoint(row: Tcp4Row) -> Endpoint {
    Endpoint {
        udp: false,
        remote_ip: IpAddr::V4(v4_of(row.remote_addr)),
        remote_port: port_of(row.remote_port),
        local_port: port_of(row.local_port),
        pid: row.pid,
    }
}

pub open spec fn tcp6_endpoint(row: Tcp6Row) -> Endpoint {
    Endpoint {
        udp: false,
        remote_ip: IpAddr::V6(Ipv6Addr { bits: ip::from_big_endian(row.remote_addr@) as u128 }),
        remote_port: port_of(row.remote_port),
        local_port: port_of(row.local_port),
        pid: row.pid,
    }
}

pub open spec fn udp_endpoint(row: UdpRow, unspecified: IpAddr) -> Endpoint {
    Endpoint {
        udp: true,
        remote_ip: unspecified,
        remote_port: 0,
        local_port: port_of(row.local_port),
        pid: row.pid,
    }
}

/// Only endpoints with a remote side are connections.
pub open spec fn connected() -> spec_fn(Endpoint) -> bool {
    |e: Endpoint| !e.remote_ip.unspecified_spec()
}

impl Tables {
    /// The connections of all tables: TCP rows with a remote side, and all UDP
    /// rows.
    pub open spec fn endpoints_spec(self) -> Seq<Endpoint> {
        self.tcp4@.map_values(|r: Tcp4Row| tcp4_endpoint(r)).filter(connected())
            + self.tcp6@.map_values(|r: Tcp6Row| tcp6_endpoint(r)).filter(connected())
            + self.udp4@.map_values(
            |r: UdpRow| udp_endpoint(r, IpAddr::V4(Ipv4Addr { bits: 0 })),
        ) + self.udp6@.map_values(|r: UdpRow| udp_endpoint(r, IpAddr::V6(Ipv6Addr { bits: 0 })))
    }

    /// No connections.
    pub fn empty() -> (r: Self)
        ensures
            r.tcp4@.len() == 0,
            r.tcp6@.len() == 0,
            r.udp4@.len() == 0,
            r.udp6@.len() == 0,
    {
        Tables { tcp4: Vec::new(), tcp6: Vec::new(), udp4: Vec::new(), udp6: Vec::new() }
    }

    /// The connections of all tables.
    pub fn endpoints(&self) -> (r: Vec<Endpoint>)
        ensures
            r@ == self.endpoints_spec(),
    {
        let mut out: Vec<Endpoint> = tcp4(&self.tcp4);
        let mut tcp6: Vec<Endpoint> = tcp6(&self.tcp6);
        let mut udp4: Vec<Endpoint> = udp(&self.udp4, IpAddr::V4(Ipv4Addr::unspecified()));
        let mut udp6: Vec<Endpoint> = udp(&self.udp6, IpAddr::V6(Ipv6Addr::unspecified()));
        out.append(&mut tcp6);
        out.append(&mut udp4);
        out.append(&mut udp6);
        out
    }
}

/// The connections in the TCP table for IPv4.
pub fn tcp4(rows: &Vec<Tcp4Row>) -> (r: Vec<Endpoint>)
    ensures
        r@ == rows@.map_values(|r: Tcp4Row| tcp4_endpoint(r)).filter(connected()),
{
    let ghost all = rows@.map_values(|r: Tcp4Row| tcp4_endpoint(r));
    let mut out: Vec<Endpoint> = Vec::new();
    let mut i: usize = 0;
    proof {
        reveal(Seq::filter);
        assert(all.take(0).filter(connected()) =~= Seq::<Endpoint>::empty());
    }
    while i < rows.len()
        invariant
            i <= rows@.len(),
            all == rows@.map_values(|r: Tcp4Row| tcp4_endpoint(r)),
            out@ == all.take(i as int).filter(connected()),
        decreases rows@.len() - i,
    {
        let row: Tcp4Row = rows[i];
        let e: Endpoint = Endpoint {
            udp: false,
            remote_ip: IpAddr::V4(v4(row.remote_addr)),
            remote_port: port(row.remote_port),
            local_port: port(row.local_port),
            pid: row.pid,
        };
        proof {
            reveal(Seq::filter);
            assert(e == all[i as int]);
            assert(all.take(i + 1).drop_last() =~= all.take(i as int));
        }
        if !e.remote_ip.is_unspecified() {
            out.push(e);
        }
        i = i + 1;
    }
    proof {
        assert(all.take(i as int) =~= all);
    }
    out
}

/// The connections in the TCP table for IPv6.
pub fn tcp6(rows: &Vec<Tcp6Row>) -> (r: Vec<Endpoint>)
    ensures
        r@ == rows@.map_values(|r: Tcp6Row| tcp6_endpoint(r)).filter(connected()),
{
    let ghost all = rows@.map_values(|r: Tcp6Row| tcp6_endpoint(r));
    let mut out: Vec<Endpoint> = Vec::new();
    let mut i: usize = 0;
    proof {
        reveal(Seq::filter);
        assert(all.take(0).filter(connected()) =~= Seq::<Endpoint>::empty());
    }
    while i < rows.len()
        invariant
            i <= rows@.len(),
            all == rows@.map_values(|r: Tcp6Row| tcp6_endpoint(r)),
            out@ == all.take(i as int).filter(connected()),
        decreases rows@.len() - i,
    {
        let row: Tcp6Row = rows[i];
        let e: Endpoint = Endpoint {
            udp: false,
            remote_ip: IpAddr::V6(Ipv6Addr::from_octets(&row.remote_addr)),
            remote_port: port(row.remote_port),
            local_port: port(row.local_port),
            pid: row.pid,
        };
        proof {
            reveal(Seq::filter);
            assert(e == all[i as int]);
            assert(all.take(i + 1).drop_last() =~= all.take(i as int));
        }
        if !e.remote_ip.is_unspecified() {
            out.push(e);
        }
        i = i + 1;
    }
    proof {
        assert(all.take(i as int) =~= all);
    }
    out
}

/// The endpoints in a UDP table; their remote side is the unspecified address.
pub fn udp(rows: &Vec<UdpRow>, unspecified: IpAddr) -> (r: Vec<Endpoint>)
    ensures
        r@ == rows@.map_values(|r: UdpRow| udp_endpoint(r, unspecified)),
{
    let mut out: Vec<Endpoint> = Vec::new();
    let mut i: usize = 0;
    while i < rows.len()
        invariant
            i <= rows@.len(),
            out@.len() == i,
            forall|j: int| 0 <= j < i ==> (#[trigger] out@[j]) == udp_endpoint(rows@[j], unspecified),
        decreases rows@.len() - i,
    {
        let row: UdpRow = rows[i];
        out.push(
            Endpoint {
                udp: true,
                remote_ip: unspecified,
                remote_port: 0,
                local_port: port(row.local_port),
                pid: row.pid,
            },
        );
        i = i + 1;
    }
    proof {
        assert(out@ =~= rows@.map_values(|r: UdpRow| udp_endpoint(r, unspecified)));
    }
    out
}

/// The path that a process query gave: none where it is empty.
pub fn process_path(units: &Vec<u16>) -> (r: Option<String>)
    ensures
        text::text_option(r) == (if units@.len() == 0 {
            None
        } else {
            Some(netevent::utf16_text(units@))
        }),
{
    if units.len() == 0 {
        None
    } else {
        Some(decode_utf16(units))
    }
}

/// The name of a process: that of its executable, or what is known by its id.
pub open spec fn process_name_of(path: Option<Seq<char>>, pid: u32) -> Seq<char> {
    match path {
        Some(p) => apps::name_of(p),
        None => if pid == 0 {
            "System Idle"@
        } else if pid == 4 {
            "System"@
        } else {
            "pid "@ + text::decimal(pid as nat)
        },
    }
}

pub fn process_name(path: &Option<String>, pid: u32) -> (r: String)
    ensures
        r@ == process_name_of(text::text_option(*path), pid),
{
    match path {
        Some(p) => app_name(p.as_str()),
        None => match pid {
            0 => "System Idle".to_owned(),
            4 => "System".to_owned(),
            _ => {
                let mut s: String = "pid ".to_owned();
                text::push_decimal(&mut s, pid as u64);
                s
            },
        },
    }
}

/// The executables of the processes that were asked for. Every process is asked
/// for at most once.
pub struct Processes {
    paths: HashMap<u32, Option<String>>,
}

impl View for Processes {
    type V = Map<u32, Option<Seq<char>>>;

    closed spec fn view(&self) -> Map<u32, Option<Seq<char>>> {
        Map::new(
            |pid: u32| self.paths@.contains_key(pid),
            |pid: u32| text::text_option(self.paths@[pid]),
        )
    }
}

/// What is known of a process: its path, where one was found, and its name.
pub open spec fn info_of(known: Map<u32, Option<Seq<char>>>, pid: u32) -> (
    Option<Seq<char>>,
    Seq<char>,
) {
    let path = if known.contains_key(pid) {
        known[pid]
    } else {
        None
    };
    (path, process_name_of(path, pid))
}

impl Processes {
    pub fn new() -> (r: Self)
        ensures
            r@ == Map::<u32, Option<Seq<char>>>::empty(),
    {
        let r = Processes { paths: HashMap::new() };
        proof {
            assert(r@ =~= Map::<u32, Option<Seq<char>>>::empty());
        }
        r
    }

    /// Whether the process was asked for. The idle process has no executable,
    /// so that there is nothing to ask.
    pub fn knows(&self, pid: u32) -> (r: bool)
        ensures
            r == (pid == 0 || self@.contains_key(pid)),
    {
        broadcast use vstd::std_specs::hash::group_hash_axioms;

        pid == 0 || self.paths.contains_key(&pid)
    }

    /// Takes note of what asking for a process gave.
    pub fn remember(&mut self, pid: u32, path: Option<String>)
        ensures
            final(self)@ == old(self)@.insert(pid, text::text_option(path)),
    {
        broadcast use vstd::std_specs::hash::group_hash_axioms;

        let _ = self.paths.insert(pid, path);
        proof {
            assert(self@ =~= old(self)@.insert(pid, text::text_option(path)));
        }
    }

    /// What is known of a process.
    pub fn process_info(&self, pid: u32) -> (r: (Option<String>, String))
        ensures
            (text::text_option(r.0), r.1@) == info_of(self@, pid),
    {
        broadcast use vstd::std_specs::hash::group_hash_axioms;

        let path: Option<String> = match self.paths.get(&pid) {
            Some(p) => text::copy_text_option(p),
            None => None,
        };
        let name: String = process_name(&path, pid);
        (path, name)
    }
}

/// A connection with its process.
pub open spec fn connection_of(e: Endpoint, known: Map<u32, Option<Seq<char>>>) -> ConnectionModel {
    ConnectionModel {
        protocol: if e.udp {
            "udp"@
        } else {
            "tcp"@
        },
        remote_ip: e.remote_ip,
        remote_port: e.remote_port,
        local_port: e.local_port,
        pid: e.pid,
        app_path: info_of(known, e.pid).0,
        app_name: info_of(known, e.pid).1,
    }
}

/// A list of connections.
pub open spec fn connections_view(c: Seq<ActiveConnection>) -> Seq<ConnectionModel> {
    c.map_values(|c: ActiveConnection| c@)
}

/// The active connections with their processes.
pub fn snapshot(endpoints: &Vec<Endpoint>, processes: &Processes) -> (r: Vec<ActiveConnection>)
    ensures
        connections_view(r@) == endpoints@.map_values(
            |e: Endpoint| connection_of(e, processes@),
        ),
{
    let mut out: Vec<ActiveConnection> = Vec::new();
    let mut i: usize = 0;
    while i < endpoints.len()
        invariant
            i <= endpoints@.len(),
            out@.len() == i,
            forall|j: int|
                0 <= j < i ==> (#[trigger] out@[j])@ == connection_of(endpoints@[j], processes@),
        decreases endpoints@.len() - i,
    {
        let e: Endpoint = endpoints[i];
        let (app_path, app_name) = processes.process_info(e.pid);
        out.push(
            ActiveConnection {
                protocol: if e.udp {
                    "udp"
                } else {
                    "tcp"
                },
                remote_ip: e.remote_ip,
                remote_port: e.remote_port,
                local_port: e.local_port,
                pid: e.pid,
                app_path,
                app_name,
            },
        );
        i = i + 1;
    }
    proof {
        assert(connections_view(out@) =~= endpoints@.map_values(
            |e: Endpoint| connection_of(e, processes@),
        ));
    }
    out
}

/// A zeroed buffer of whole words that holds `size` bytes.
pub fn aligned_buffer(size: u32) -> (r: Vec<usize>)
    ensures
        ({
            let word = vstd::layout::size_of::<usize>();
            &&& r@.len() * word >= size
            &&& r@.len() * word < size + word
        }),
        forall|i: int| 0 <= i < r@.len() ==> r@[i] == 0,
{
    broadcast use vstd::layout::layout_of_primitives;

    let word: usize = core::mem::size_of::<usize>();
    let bytes: usize = size as usize;
    let whole: usize = bytes / word;
    let n: usize = if whole * word == bytes {
        whole
    } else {
        whole + 1
    };
    vec![0usize; n]
}

/// Every TCP connection in a snapshot has a remote side.
pub proof fn tcp_connections_have_a_remote_side(t: Tables, i: int)
    requires
        0 <= i < t.endpoints_spec().len(),
        !t.endpoints_spec()[i].udp,
    ensures
        !t.endpoints_spec()[i].remote_ip.unspecified_spec(),
{
    let a = t.tcp4@.map_values(|r: Tcp4Row| tcp4_endpoint(r));
    let b = t.tcp6@.map_values(|r: Tcp6Row| tcp6_endpoint(r));
    let n = a.filter(connected()).len() as int;
    if i < n {
        a.lemma_filter_pred(connected(), i);
    } else if i < n + b.filter(connected()).len() {
        b.lemma_filter_pred(connected(), i - n);
    }
}

} // verus!
