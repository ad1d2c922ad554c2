//! What the user is shown of connections, and the step from raw observations to
//! network events.

use vstd::prelude::*;
use vstd::string::*;

use crate::active_connections;
use crate::active_connections::{ActiveConnection, ConnectionModel};
use crate::apps;
use crate::apps::app_name;
use crate::detect::{BlockReason, Verdict};
use crate::event::{Action, Direction, NetEvent, Proto};
use crate::ip::{IpAddr, Ipv4Addr};
use crate::text;
use crate::wfp::{RawConn, RawModel};

verus! {

/// A connection as shown to the user.
#[derive(Debug, PartialEq, Eq)]
pub struct ConnectionSeen {
    pub id: String,
    pub ts_ms: u64,
    pub app_path: Option<String>,
    pub app_name: String,
    pub direction: String,
    pub protocol: String,
    pub remote_ip: String,
    pub remote_port: u16,
    pub local_port: u16,
    pub pid: u32,
    pub verdict: String,
    pub reason: Option<String>,
    pub is_new_conn: bool,
}

#[verifier::ext_equal]
pub struct SeenModel {
    pub id: Seq<char>,
    pub ts_ms: u64,
    pub app_path: Option<Seq<char>>,
    pub app_name: Seq<char>,
    pub direction: Seq<char>,
    pub protocol: Seq<char>,
    pub remote_ip: Seq<char>,
    pub remote_port: u16,
    pub local_port: u16,
    pub pid: u32,
    pub verdict: Seq<char>,
    pub reason: Option<Seq<char>>,
    pub is_new_conn: bool,
}

impl View for ConnectionSeen {
    type V = SeenModel;

    open spec fn view(&self) -> SeenModel {
        SeenModel {
            id: self.id@,
            ts_ms: self.ts_ms,
            app_path: text::text_option(self.app_path),
            app_name: self.app_name@,
            direction: self.direction@,
            protocol: self.protocol@,
            remote_ip: self.remote_ip@,
            remote_port: self.remote_port,
            local_port: self.local_port,
            pid: self.pid,
            verdict: self.verdict@,
            reason: text::text_option(self.reason),
            is_new_conn: self.is_new_conn,
        }
    }
}

/// The network event that an observation stands for. Which local address it
/// concerns is not known.
pub open spec fn is_event_of(ev: NetEvent, raw: RawModel) -> bool {
    &&& ev.ts_ms == raw.ts_ms
    &&& ev.direction == if raw.inbound {
        Direction::Inbound
    } else {
        Direction::Outbound
    }
    &&& ev.proto == if raw.udp {
        Proto::Udp
    } else {
        Proto::Tcp
    }
    &&& ev.local_ip == IpAddr::V4(Ipv4Addr { bits: 0 })
    &&& ev.local_port == raw.local_port
    &&& ev.remote_ip == raw.remote_ip
    &&& ev.remote_port == raw.remote_port
    &&& ev.pid == raw.pid
    &&& text::text_option(ev.app_path) == raw.app_path
    &&& ev.service_sid is None
    &&& ev.is_new_conn == raw.is_new
    &&& ev.action == Action::Allow
}

pub fn raw_to_event(raw: &RawConn) -> (r: NetEvent)
    ensures
        is_event_of(r, raw@),
{
    NetEvent {
        ts_ms: raw.ts_ms,
        direction: if raw.inbound {
            Direction::Inbound
        } else {
            Direction::Outbound
        },
        proto: if raw.udp {
            Proto::Udp
        } else {
            Proto::Tcp
        },
        local_ip: IpAddr::V4(Ipv4Addr::unspecified()),
        local_port: raw.local_port,
        remote_ip: raw.remote_ip,
        remote_port: raw.remote_port,
        pid: raw.pid,
        app_path: text::copy_text_option(&raw.app_path),
        service_sid: None,
        is_new_conn: raw.is_new,
        action: Action::Allow,
    }
}

pub open spec fn protocol_text(udp: bool) -> Seq<char> {
    if udp {
        "udp"@
    } else {
        "tcp"@
    }
}

pub fn protocol_str(raw: &RawConn) -> (r: &'static str)
    ensures
        r@ == protocol_text(raw.udp),
{
    if raw.udp {
        "udp"
    } else {
        "tcp"
    }
}

/// The name of a block reason.
pub open spec fn reason_name(reason: BlockReason) -> Seq<char> {
    match reason {
        BlockReason::RateLimit => "RateLimit"@,
        BlockReason::PortScan => "PortScan"@,
        BlockReason::Manual => "Manual"@,
        BlockReason::Blocklist => "Blocklist"@,
    }
}

fn reason_label(reason: &BlockReason) -> (r: String)
    ensures
        r@ == reason_name(*reason),
{
    match reason {
        BlockReason::RateLimit => "RateLimit".to_owned(),
        BlockReason::PortScan => "PortScan".to_owned(),
        BlockReason::Manual => "Manual".to_owned(),
        BlockReason::Blocklist => "Blocklist".to_owned(),
    }
}

/// The identifier of an observation: time, process, address and port.
pub open spec fn seen_id(raw: RawModel) -> Seq<char> {
    text::decimal(raw.ts_ms as nat) + seq!['-'] + text::decimal(raw.pid as nat) + seq!['-']
        + raw.remote_ip.text() + seq!['-'] + text::decimal(raw.remote_port as nat)
}

/// An observation and its verdict, as shown to the user.
pub open spec fn seen_of(raw: RawModel, verdict: Verdict) -> SeenModel {
    SeenModel {
        id: seen_id(raw),
        ts_ms: raw.ts_ms,
        app_path: raw.app_path,
        app_name: match raw.app_path {
            Some(path) => apps::name_of(path),
            None => "pid "@ + text::decimal(raw.pid as nat),
        },
        direction: if raw.inbound {
            "inbound"@
        } else {
            "outbound"@
        },
        protocol: protocol_text(raw.udp),
        remote_ip: raw.remote_ip.text(),
        remote_port: raw.remote_port,
        local_port: raw.local_port,
        pid: raw.pid,
        verdict: match verdict {
            Verdict::Pass => "allow"@,
            Verdict::Block { .. } => "block"@,
        },
        reason: match verdict {
            Verdict::Pass => None,
            Verdict::Block { reason, .. } => Some(reason_name(reason)),
        },
        is_new_conn: raw.is_new,
    }
}

pub fn connection_seen(raw: &RawConn, verdict: &Verdict) -> (r: ConnectionSeen)
    ensures
        r@ == seen_of(raw@, *verdict),
{
    let remote_ip: String = raw.remote_ip.to_string();
    let mut id: String = String::new();
    text::push_decimal(&mut id, raw.ts_ms);
    id.push('-');
    text::push_decimal(&mut id, raw.pid as u64);
    id.push('-');
    id.append(remote_ip.as_str());
    id.push('-');
    text::push_decimal(&mut id, raw.remote_port as u64);
    proof {
        assert(id@ =~= seen_id(raw@));
    }
    let name: String = match &raw.app_path {
        Some(path) => app_name(path.as_str()),
        None => {
            let mut s: String = "pid ".to_owned();
            text::push_decimal(&mut s, raw.pid as u64);
            s
        },
    };
    let (verdict_name, reason) = match verdict {
        Verdict::Pass => ("allow".to_owned(), None),
        Verdict::Block { reason, .. } => ("block".to_owned(), Some(reason_label(reason))),
    };
    ConnectionSeen {
        id,
        ts_ms: raw.ts_ms,
        app_path: text::copy_text_option(&raw.app_path),
        app_name: name,
        direction: if raw.inbound {
            "inbound".to_owned()
        } else {
            "outbound".to_owned()
        },
        protocol: protocol_str(raw).to_owned(),
        remote_ip,
        remote_port: raw.remote_port,
        local_port: raw.local_port,
        pid: raw.pid,
        verdict: verdict_name,
        reason,
        is_new_conn: raw.is_new,
    }
}

/// The observation that an active connection stands for. `app_id` is the
/// identifier that was found for its path, where one was.
pub fn active_to_raw(conn: &ActiveConnection, app_id: Option<Vec<u8>>, ts_ms: u64) -> (r: RawConn)
    ensures
        r@ == (RawModel {
            ts_ms,
            inbound: false,
            is_new: true,
            udp: conn@.protocol == "udp"@,
            remote_ip: conn@.remote_ip,
            remote_port: conn@.remote_port,
            local_port: conn@.local_port,
            pid: conn@.pid,
            app_id: text::bytes_option(app_id),
            app_path: conn@.app_path,
        }),
{
    RawConn {
        ts_ms,
        inbound: false,
        is_new: true,
        udp: text::same_text(conn.protocol, "udp"),
        remote_ip: conn.remote_ip,
        remote_port: conn.remote_port,
        local_port: conn.local_port,
        pid: conn.pid,
        app_id,
        app_path: text::copy_text_option(&conn.app_path),
    }
}

/// Protocol, process, local port, address and remote port, with a separator in
/// between.
pub open spec fn connection_key(conn: ConnectionModel, sep: char) -> Seq<char> {
    conn.protocol + seq![sep] + text::decimal(conn.pid as nat) + seq![sep] + text::decimal(
        conn.local_port as nat,
    ) + seq![sep] + conn.remote_ip.text() + seq![sep] + text::decimal(conn.remote_port as nat)
}

fn push_connection_key(out: &mut String, conn: &ActiveConnection, sep: char)
    ensures
        final(out)@ == old(out)@ + connection_key(conn@, sep),
{
    let remote_ip: String = conn.remote_ip.to_string();
    out.append(conn.protocol);
    out.push(sep);
    text::push_decimal(out, conn.pid as u64);
    out.push(sep);
    text::push_decimal(out, conn.local_port as u64);
    out.push(sep);
    out.append(remote_ip.as_str());
    out.push(sep);
    text::push_decimal(out, conn.remote_port as u64);
    proof {
        assert(out@ =~= old(out)@ + connection_key(conn@, sep));
    }
}

/// An active connection, as shown to the user.
pub open spec fn snapshot_of(conn: ConnectionModel, ts_ms: u64) -> SeenModel {
    SeenModel {
        id: "snapshot-"@ + connection_key(conn, '-'),
        ts_ms,
        app_path: conn.app_path,
        app_name: conn.app_name,
        direction: "outbound"@,
        protocol: conn.protocol,
        remote_ip: conn.remote_ip.text(),
        remote_port: conn.remote_port,
        local_port: conn.local_port,
        pid: conn.pid,
        verdict: "allow"@,
        reason: Some("active-snapshot"@),
        is_new_conn: false,
    }
}

pub fn snapshot_seen(conn: &ActiveConnection, ts_ms: u64) -> (r: ConnectionSeen)
    ensures
        r@ == snapshot_of(conn@, ts_ms),
{
    let mut id: String = "snapshot-".to_owned();
    push_connection_key(&mut id, conn, '-');
    ConnectionSeen {
        id,
        ts_ms,
        app_path: text::copy_text_option(&conn.app_path),
        app_name: conn.app_name.clone(),
        direction: "outbound".to_owned(),
        protocol: conn.protocol.to_owned(),
        remote_ip: conn.remote_ip.to_string(),
        remote_port: conn.remote_port,
        local_port: conn.local_port,
        pid: conn.pid,
        verdict: "allow".to_owned(),
        reason: Some("active-snapshot".to_owned()),
        is_new_conn: false,
    }
}

/// Whether the connection at `i` occurs before `i`.
pub open spec fn repeats(conns: Seq<ConnectionModel>, i: int) -> bool {
    exists|j: int|
        0 <= j < i && connection_key(#[trigger] conns[j], ':') == connection_key(conns[i], ':')
}

/// The first occurrences among the first `n` connections.
pub open spec fn firsts(conns: Seq<ConnectionModel>, n: int) -> Seq<ConnectionModel>
    decreases n,
{
    if n <= 0 {
        Seq::empty()
    } else if repeats(conns, n - 1) {
        firsts(conns, n - 1)
    } else {
        firsts(conns, n - 1).push(conns[n - 1])
    }
}

/// Every connection once, in order.
pub fn distinct_connections(conns: &Vec<ActiveConnection>) -> (r: Vec<ActiveConnection>)
    ensures
        active_connections::connections_view(r@) == firsts(
            active_connections::connections_view(conns@),
            conns@.len() as int,
        ),
{
    let ghost all = active_connections::connections_view(conns@);
    let mut keys: Vec<String> = Vec::new();
    let mut out: Vec<ActiveConnection> = Vec::new();
    let mut i: usize = 0;
    proof {
        assert(active_connections::connections_view(out@) =~= firsts(all, 0));
    }
    while i < conns.len()
        invariant
            i <= conns@.len(),
            all == active_connections::connections_view(conns@),
            keys@.len() == i,
            forall|j: int| 0 <= j < i ==> (#[trigger] keys@[j])@ == connection_key(all[j], ':'),
            active_connections::connections_view(out@) == firsts(all, i as int),
        decreases conns@.len() - i,
    {
        let mut key: String = String::new();
        push_connection_key(&mut key, &conns[i], ':');
        proof {
            assert(key@ =~= connection_key(all[i as int], ':'));
        }
        let mut seen: bool = false;
        let mut k: usize = 0;
        while k < i
            invariant
                k <= i < conns@.len(),
                keys@.len() == i,
                all == active_connections::connections_view(conns@),
                key@ == connection_key(all[i as int], ':'),
                forall|j: int| 0 <= j < i ==> (#[trigger] keys@[j])@ == connection_key(all[j], ':'),
                seen ==> repeats(all, i as int),
                !seen ==> forall|j: int|
                    0 <= j < k ==> connection_key(#[trigger] all[j], ':') != key@,
            decreases i - k,
        {
            proof {
                assert(keys@[k as int]@ == connection_key(all[k as int], ':'));
            }
            if text::same_text(keys[k].as_str(), key.as_str()) {
                seen = true;
            }
            k = k + 1;
        }
        if !seen {
            let c: ActiveConnection = conns[i].clone();
            proof {
                assert(active_connections::connections_view(out@.push(c))
                    =~= active_connections::connections_view(out@).push(c@));
            }
            out.push(c);
        }
        keys.push(key);
        i = i + 1;
    }
    out
}

/// Whether the program behind a snapshot connection is to be inspected: only
/// TCP connections with a remote side are.
pub fn inspects_snapshot(raw: &RawConn) -> (r: bool)
    ensures
        r == (!raw@.udp && !raw@.remote_ip.unspecified_spec()),
{
    !raw.udp && !raw.remote_ip.is_unspecified()
}

/// A snapshot shows no connection twice and leaves none out.
pub proof fn snapshot_shows_each_once(conns: Seq<ConnectionModel>, n: int)
    requires
        0 <= n <= conns.len(),
    ensures
        forall|i: int, j: int|
            0 <= i < j < firsts(conns, n).len() ==> connection_key(
                #[trigger] firsts(conns, n)[i],
                ':',
            ) != connection_key(#[trigger] firsts(conns, n)[j], ':'),
        forall|i: int|
            0 <= i < n ==> exists|k: int|
                0 <= k < firsts(conns, n).len() && connection_key(firsts(conns, n)[k], ':')
                    == connection_key(#[trigger] conns[i], ':'),
        forall|k: int|
            0 <= k < firsts(conns, n).len() ==> exists|i: int|
                0 <= i < n && conns[i] == #[trigger] firsts(conns, n)[k],
    decreases n,
{
    if n > 0 {
        snapshot_shows_each_once(conns, n - 1);
        let front = firsts(conns, n - 1);
        let all = firsts(conns, n);
        let last = conns[n - 1];
        assert forall|k: int| 0 <= k < all.len() implies exists|i: int|
            0 <= i < n && conns[i] == #[trigger] all[k] by {
            if k < front.len() {
                assert(all[k] == front[k]);
                let i = choose|i: int| 0 <= i < n - 1 && conns[i] == front[k];
                assert(conns[i] == all[k]);
            } else {
                assert(conns[n - 1] == all[k]);
            }
        }
        assert forall|i: int, j: int| 0 <= i < j < all.len() implies connection_key(
            #[trigger] all[i],
            ':',
        ) != connection_key(#[trigger] all[j], ':') by {
            assert(all[i] == front[i]);
            if j < front.len() {
                assert(all[j] == front[j]);
            } else {
                let x = choose|x: int| 0 <= x < n - 1 && conns[x] == front[i];
                assert(!repeats(conns, n - 1));
                assert(connection_key(conns[x], ':') != connection_key(last, ':'));
            }
        }
        assert forall|i: int| 0 <= i < n implies exists|k: int|
            0 <= k < all.len() && connection_key(all[k], ':') == connection_key(
                #[trigger] conns[i],
                ':',
            ) by {
            let x = if i < n - 1 {
                i
            } else if repeats(conns, n - 1) {
                choose|j: int|
                    0 <= j < n - 1 && connection_key(#[trigger] conns[j], ':') == connection_key(
                        conns[n - 1],
                        ':',
                    )
            } else {
                -1
            };
            if x >= 0 {
                assert(0 <= x < n - 1);
                let k = choose|k: int|
                    0 <= k < front.len() && connection_key(front[k], ':') == connection_key(
                        conns[x],
                        ':',
                    );
                assert(all[k] == front[k]);
            } else {
                assert(all[front.len() as int] == last);
            }
        }
    }
}

} // verus!
