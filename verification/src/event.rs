//! The network-event model. A `NetEvent` is one observation of the host's
//! network stack; the detection engine only ever sees this struct.

use vstd::prelude::*;

use crate::ip::{IpAddr, Ipv4Addr};

verus! {

#[derive(Debug, Clone, Copy, PartialEq, Eq, Structural)]
pub enum Direction {
    Inbound,
    Outbound,
}

#[derive(Debug, Clone, Copy, PartialEq, Eq, Structural)]
pub enum Proto {
    Tcp,
    Udp,
    Icmp,
    Other,
}

/// What the base firewall did with the packet at the moment it was seen.
#[derive(Debug, Clone, Copy, PartialEq, Eq, Structural)]
pub enum Action {
    Allow,
    Block,
}

/// A single network event. `ts_ms` is a millisecond timestamp; time is an
/// explicit field, so the detectors are deterministic.
#[derive(Debug, Clone, PartialEq, Eq)]
pub struct NetEvent {
    pub ts_ms: u64,
    pub direction: Direction,
    pub proto: Proto,
    pub local_ip: IpAddr,
    /// Port on this host. For inbound traffic this is the port being probed.
    pub local_port: u16,
    pub remote_ip: IpAddr,
    pub remote_port: u16,
    pub pid: u32,
    /// Owning process image path, if resolved.
    pub app_path: Option<String>,
    /// Service identifier, when the flow belongs to a shared service host.
    pub service_sid: Option<String>,
    /// True when this is a new flow or connection attempt, as opposed to an
    /// already established flow. Rate and scan detection only count new ones.
    pub is_new_conn: bool,
    /// What the base firewall verdict was, before the detectors weigh in.
    pub action: Action,
}

impl NetEvent {
    /// Whether the event is a new inbound connection attempt.
    pub open spec fn counts(self) -> bool {
        self.direction == Direction::Inbound && self.is_new_conn
    }

    /// A new inbound connection attempt with nothing known of its process.
    pub fn inbound_new(ts_ms: u64, proto: Proto, remote_ip: IpAddr, local_port: u16) -> (r: Self)
        ensures
            r == (NetEvent {
                ts_ms,
                direction: Direction::Inbound,
                proto,
                local_ip: IpAddr::V4(Ipv4Addr { bits: 0 }),
                local_port,
                remote_ip,
                remote_port: 40000,
                pid: 0,
                app_path: None,
                service_sid: None,
                is_new_conn: true,
                action: Action::Allow,
            }),
    {
        NetEvent {
            ts_ms,
            direction: Direction::Inbound,
            proto,
            local_ip: IpAddr::V4(Ipv4Addr::unspecified()),
            local_port,
            remote_ip,
            remote_port: 40000,
            pid: 0,
            app_path: None,
            service_sid: None,
            is_new_conn: true,
            action: Action::Allow,
        }
    }
}

} // verus!
