//! Platform firewall abstraction.
//!
//! The rest of the library talks only to the [`Firewall`] trait and works on
//! [`RawConn`] observations. What a packet filter is asked to install, and what
//! it reports, is described by plain values, so that the decisions around it
//! hold on every platform.

pub mod filter;
pub mod install;
pub mod netevent;
pub mod sim;

use vstd::prelude::*;
use vstd::string::*;

use crate::ip::IpAddr;
use crate::text;

verus! {

#[derive(Debug, Clone, Copy, PartialEq, Eq, Structural)]
pub enum AppProtocol {
    All,
    Tcp,
    Udp,
}

/// The remote side that a rule is limited to.
#[derive(Debug, Clone, Copy, PartialEq, Eq, Structural)]
pub enum RemoteMatch {
    Ip(IpAddr),
    Cidr { network: IpAddr, prefix: u8 },
}

/// A raw connection observation from the network stack, before it is turned
/// into a network event.
#[derive(Debug, PartialEq, Eq)]
pub struct RawConn {
    pub ts_ms: u64,
    pub inbound: bool,
    pub is_new: bool,
    pub udp: bool,
    pub remote_ip: IpAddr,
    pub remote_port: u16,
    /// Port on this host (the probed port for inbound traffic).
    pub local_port: u16,
    pub pid: u32,
    /// Application identifier bytes, by which an application is blocked.
    pub app_id: Option<Vec<u8>>,
    /// Human-readable path decoded from the application identifier.
    pub app_path: Option<String>,
}

#[verifier::ext_equal]
pub struct RawModel {
    pub ts_ms: u64,
    pub inbound: bool,
    pub is_new: bool,
    pub udp: bool,
    pub remote_ip: IpAddr,
    pub remote_port: u16,
    pub local_port: u16,
    pub pid: u32,
    pub app_id: Option<Seq<u8>>,
    pub app_path: Option<Seq<char>>,
}

impl View for RawConn {
    type V = RawModel;

    open spec fn view(&self) -> RawModel {
        RawModel {
            ts_ms: self.ts_ms,
            inbound: self.inbound,
            is_new: self.is_new,
            udp: self.udp,
            remote_ip: self.remote_ip,
            remote_port: self.remote_port,
            local_port: self.local_port,
            pid: self.pid,
            app_id: text::bytes_option(self.app_id),
            app_path: text::text_option(self.app_path),
        }
    }
}

impl Clone for RawConn {
    fn clone(&self) -> (r: Self)
        ensures
            r@ == self@,
    {
        RawConn {
            ts_ms: self.ts_ms,
            inbound: self.inbound,
            is_new: self.is_new,
            udp: self.udp,
            remote_ip: self.remote_ip,
            remote_port: self.remote_port,
            local_port: self.local_port,
            pid: self.pid,
            app_id: match &self.app_id {
                Some(id) => Some(text::copy_bytes(id)),
                None => None,
            },
            app_path: text::copy_text_option(&self.app_path),
        }
    }
}

/// What is asked of a packet filter, with its reply: the handle of the block, or
/// why there is none. Whether a block was removed makes no difference to anyone
/// who asks for it, so that reply is not noted.
pub enum Request {
    BlockIp { ip: IpAddr, reply: Result<u64, Seq<char>> },
    BlockApp { app_id: Seq<u8>, protocol: AppProtocol, reply: Result<u64, Seq<char>> },
    BlockAppTarget {
        app_id: Seq<u8>,
        protocol: AppProtocol,
        remote: Option<RemoteMatch>,
        remote_port: Option<u16>,
        reply: Result<u64, Seq<char>>,
    },
    Unblock { handle: u64 },
}

/// A reply as it is noted.
pub open spec fn reply_of(r: Result<u64, String>) -> Result<u64, Seq<char>> {
    match r {
        Ok(handle) => Ok(handle),
        Err(e) => Err(e@),
    }
}

/// The handle in a reply.
pub open spec fn granted(reply: Result<u64, Seq<char>>) -> Option<u64> {
    match reply {
        Ok(handle) => Some(handle),
        Err(_) => None,
    }
}

/// The requests after a block was lifted, where there was one.
pub open spec fn lifting(asked: Seq<Request>, handle: Option<u64>) -> Seq<Request> {
    match handle {
        Some(handle) => asked.push(Request::Unblock { handle }),
        None => asked,
    }
}

/// Installs and removes temporary block filters.
pub trait Firewall {
    /// All that was asked of it so far, oldest first. The log is there for proofs
    /// alone: an implementation whose methods are not verified leaves it open.
    open spec fn asked(&self) -> Seq<Request> {
        arbitrary()
    }

    /// Installs a block for `ip`. Returns an opaque handle used to remove it.
    fn block_ip(&mut self, ip: IpAddr) -> (r: Result<u64, String>)
        ensures
            final(self).asked() == old(self).asked().push(
                Request::BlockIp { ip, reply: reply_of(r) },
            ),
    ;

    /// Blocks future outbound connections of an application.
    fn block_app(&mut self, app_id: &Vec<u8>, protocol: AppProtocol) -> (r: Result<u64, String>)
        ensures
            final(self).asked() == old(self).asked().push(
                Request::BlockApp { app_id: app_id@, protocol, reply: reply_of(r) },
            ),
    ;

    /// Blocks future outbound connections of an application to one target.
    fn block_app_target(
        &mut self,
        app_id: &Vec<u8>,
        protocol: AppProtocol,
        remote: Option<RemoteMatch>,
        remote_port: Option<u16>,
    ) -> (r: Result<u64, String>)
        ensures
            final(self).asked() == old(self).asked().push(
                Request::BlockAppTarget {
                    app_id: app_id@,
                    protocol,
                    remote,
                    remote_port,
                    reply: reply_of(r),
                },
            ),
    ;

    /// Removes a previously installed block.
    fn unblock(&mut self, handle: u64) -> (r: Result<(), String>)
        ensures
            final(self).asked() == old(self).asked().push(Request::Unblock { handle }),
    ;

    /// Human-readable backend name for the user.
    fn backend(&self) -> &'static str;
}

/// Where there is no packet filter with application identifiers, no path has
/// one.
pub fn app_id_from_path(_path: &str) -> (r: Option<Vec<u8>>)
    ensures
        r is None,
{
    None
}

} // verus!
