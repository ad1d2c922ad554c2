//! Decoding the packet filter's network events into connection observations.

use vstd::prelude::*;
use vstd::string::*;

use crate::apps;
use crate::ip;
use crate::ip::{IpAddr, Ipv4Addr, Ipv6Addr};
use crate::text;
use crate::wfp::{RawConn, RawModel};

verus! {

/// The event types that carry a traffic direction.
pub const TYPE_CLASSIFY_DROP: i32 = 3;

pub const TYPE_CLASSIFY_ALLOW: i32 = 6;

/// The header flags that say which fields are set.
pub const FLAG_REMOTE_ADDR_SET: u32 = 4;

pub const FLAG_APP_ID_SET: u32 = 32;

pub const FLAG_IP_VERSION_SET: u32 = 256;

pub const FLAG_PACKAGE_ID_SET: u32 = 1024;

pub const IP_VERSION_V4: i32 = 0;

pub const IP_VERSION_V6: i32 = 1;

pub const DIRECTION_INBOUND: u32 = 1;

/// Whether a code unit is the first half of a surrogate pair.
pub open spec fn is_high(unit: u16) -> bool {
    0xd800 <= unit <= 0xdbff
}

/// Whether a code unit is the second half of a surrogate pair.
pub open spec fn is_low(unit: u16) -> bool {
    0xdc00 <= unit <= 0xdfff
}

/// The character that a surrogate pair stands for.
pub open spec fn paired(high: u16, low: u16) -> char {
    (0x1_0000 + (high - 0xd800) * 0x400 + (low - 0xdc00)) as char
}

/// The text that UTF-16 code units stand for: a surrogate pair is one character,
/// half a pair is a replacement character, and any other unit is itself.
pub open spec fn utf16_text(units: Seq<u16>) -> Seq<char>
    decreases units.len(),
{
    if units.len() == 0 {
        Seq::empty()
    } else if units.len() > 1 && is_high(units[0]) && is_low(units[1]) {
        seq![paired(units[0], units[1])] + utf16_text(units.skip(2))
    } else if is_high(units[0]) || is_low(units[0]) {
        seq!['\u{fffd}'] + utf16_text(units.skip(1))
    } else {
        seq![units[0] as char] + utf16_text(units.skip(1))
    }
}

/// `String::from_utf16_lossy`: the text that the UTF-16 code units stand for,
/// with a replacement character for each half of a surrogate pair that stands
/// alone.
#[verifier::external_body]
pub(crate) fn decode_utf16(units: &Vec<u16>) -> (r: String)
    ensures
        r@ == utf16_text(units@),
{
    String::from_utf16_lossy(units)
}

/// The verdict details of a classify event.
#[derive(Debug, Clone, Copy, PartialEq, Eq, Structural)]
pub struct Classification {
    pub direction: u32,
    pub reauth_reason: u32,
}

/// A network event as the packet filter reports it.
#[derive(Debug, PartialEq, Eq)]
pub struct NetEventRecord {
    pub event_type: i32,
    /// The details that belong to the type, where they are there.
    pub details: Option<Classification>,
    pub flags: u32,
    pub ip_version: i32,
    pub ip_protocol: u8,
    /// The remote IPv4 address as a number, the first octet most significant.
    pub remote_v4: u32,
    pub remote_v6: [u8; 16],
    pub remote_port: u16,
    pub local_port: u16,
    /// The bytes of the application identifier, where they are there.
    pub app_id: Option<Vec<u8>>,
    /// Whether a package identifier is there.
    pub has_package: bool,
}

#[verifier::ext_equal]
pub struct RecordModel {
    pub event_type: i32,
    pub details: Option<Classification>,
    pub flags: u32,
    pub ip_version: i32,
    pub ip_protocol: u8,
    pub remote_v4: u32,
    pub remote_v6: Seq<u8>,
    pub remote_port: u16,
    pub local_port: u16,
    pub app_id: Option<Seq<u8>>,
    pub has_package: bool,
}

impl View for NetEventRecord {
    type V = RecordModel;

    open spec fn view(&self) -> RecordModel {
        RecordModel {
            event_type: self.event_type,
            details: self.details,
            flags: self.flags,
            ip_version: self.ip_version,
            ip_protocol: self.ip_protocol,
            remote_v4: self.remote_v4,
            remote_v6: self.remote_v6@,
            remote_port: self.remote_port,
            local_port: self.local_port,
            app_id: text::bytes_option(self.app_id),
            has_package: self.has_package,
        }
    }
}

/// The code units in the bytes, the low byte of each first; an odd byte at the
/// end is left out.
pub open spec fn units_of(b: Seq<u8>) -> Seq<u16> {
    Seq::new(b.len() / 2, |i: int| (b[2 * i] as int + 256 * b[2 * i + 1] as int) as u16)
}

/// The units before the first zero.
pub open spec fn up_to_nul(units: Seq<u16>) -> Seq<u16>
    decreases units.len(),
{
    if units.len() == 0 || units[0] == 0 {
        Seq::empty()
    } else {
        seq![units[0]] + up_to_nul(units.drop_first())
    }
}

impl RecordModel {
    /// Only classify events carry a reliable traffic direction.
    pub open spec fn classified(self) -> bool {
        (self.event_type == TYPE_CLASSIFY_ALLOW || self.event_type == TYPE_CLASSIFY_DROP)
            && self.details is Some
    }

    /// The remote address is valid only where both of its flags are set.
    pub open spec fn addressed(self) -> bool {
        &&& self.flags & FLAG_REMOTE_ADDR_SET != 0
        &&& self.flags & FLAG_IP_VERSION_SET != 0
        &&& self.ip_version == IP_VERSION_V4 || self.ip_version == IP_VERSION_V6
    }

    pub open spec fn remote_ip(self) -> IpAddr {
        if self.ip_version == IP_VERSION_V4 {
            IpAddr::V4(Ipv4Addr { bits: self.remote_v4 })
        } else {
            IpAddr::V6(Ipv6Addr { bits: ip::from_big_endian(self.remote_v6) as u128 })
        }
    }

    /// The application identifier, where it is marked as set and holds at least
    /// one code unit.
    pub open spec fn app(self) -> Option<Seq<u8>> {
        match self.app_id {
            Some(b) if self.flags & FLAG_APP_ID_SET != 0 && b.len() >= 2 => Some(b),
            _ => None,
        }
    }

    /// The observation that the event stands for.
    pub open spec fn observed(self, now: u64) -> Option<RawModel> {
        if self.classified() && self.addressed() {
            Some(
                RawModel {
                    ts_ms: now,
                    inbound: self.details->0.direction == DIRECTION_INBOUND,
                    is_new: self.details->0.reauth_reason == 0,
                    udp: self.ip_protocol == 17,
                    remote_ip: self.remote_ip(),
                    remote_port: self.remote_port,
                    local_port: self.local_port,
                    pid: 0,
                    app_id: self.app(),
                    app_path: match self.app() {
                        Some(b) => Some(utf16_text(up_to_nul(units_of(b)))),
                        None => None,
                    },
                },
            )
        } else {
            None
        }
    }

    /// Whether the package identifier is to be read.
    pub open spec fn packaged(self) -> bool {
        self.flags & FLAG_PACKAGE_ID_SET != 0 && self.has_package
    }
}

fn read_units(b: &Vec<u8>) -> (r: Vec<u16>)
    ensures
        r@ == units_of(b@),
{
    let mut out: Vec<u16> = Vec::new();
    let len: usize = b.len();
    let n: usize = len / 2;
    let mut i: usize = 0;
    while i < n
        invariant
            i <= n,
            len == b@.len(),
            n == len / 2,
            out@.len() == i,
            forall|j: int| 0 <= j < i ==> out@[j] == units_of(b@)[j],
        decreases n - i,
    {
        let lo: u16 = b[2 * i] as u16;
        let hi: u16 = b[2 * i + 1] as u16;
        out.push(lo + 256 * hi);
        i = i + 1;
    }
    proof {
        assert(out@ =~= units_of(b@));
    }
    out
}

proof fn lemma_up_to_nul(s: Seq<u16>, n: int)
    requires
        0 <= n <= s.len(),
        forall|j: int| 0 <= j < n ==> s[j] != 0,
        n < s.len() ==> s[n] == 0,
    ensures
        up_to_nul(s) == s.take(n),
    decreases n,
{
    if n == 0 {
        assert(s.take(0) =~= Seq::empty());
    } else {
        lemma_up_to_nul(s.drop_first(), n - 1);
        assert(seq![s[0]] + s.drop_first().take(n - 1) =~= s.take(n));
    }
}

/// The text before the first zero unit.
pub fn text_up_to_nul(units: &Vec<u16>) -> (r: String)
    ensures
        r@ == utf16_text(up_to_nul(units@)),
{
    let mut kept: Vec<u16> = Vec::new();
    let mut i: usize = 0;
    while i < units.len() && units[i] != 0
        invariant
            i <= units@.len(),
            kept@ == units@.take(i as int),
            forall|j: int| 0 <= j < i ==> units@[j] != 0,
        decreases units@.len() - i,
    {
        proof {
            assert(units@.take(i + 1) =~= units@.take(i as int).push(units@[i as int]));
        }
        kept.push(units[i]);
        i = i + 1;
    }
    proof {
        lemma_up_to_nul(units@, i as int);
    }
    decode_utf16(&kept)
}

/// Turns a network event into an observation made at `now`. Other diagnostics
/// must not feed the detector.
pub fn decode(record: &NetEventRecord, now: u64) -> (r: Option<RawConn>)
    ensures
        match r {
            Some(raw) => record@.observed(now) == Some(raw@),
            None => record@.observed(now) is None,
        },
{
    if record.event_type != TYPE_CLASSIFY_ALLOW && record.event_type != TYPE_CLASSIFY_DROP {
        return None;
    }
    let details: Classification = match record.details {
        Some(d) => d,
        None => {
            return None;
        },
    };
    if record.flags & FLAG_REMOTE_ADDR_SET == 0 || record.flags & FLAG_IP_VERSION_SET == 0 {
        return None;
    }
    let remote_ip: IpAddr = if record.ip_version == IP_VERSION_V4 {
        IpAddr::V4(Ipv4Addr { bits: record.remote_v4 })
    } else if record.ip_version == IP_VERSION_V6 {
        IpAddr::V6(Ipv6Addr::from_octets(&record.remote_v6))
    } else {
        return None;
    };
    let mut app_id: Option<Vec<u8>> = None;
    let mut app_path: Option<String> = None;
    if let Some(b) = &record.app_id {
        if record.flags & FLAG_APP_ID_SET != 0 && b.len() >= 2 {
            let units: Vec<u16> = read_units(b);
            app_id = Some(text::copy_bytes(b));
            app_path = Some(text_up_to_nul(&units));
        }
    }
    Some(
        RawConn {
            ts_ms: now,
            inbound: details.direction == DIRECTION_INBOUND,
            is_new: details.reauth_reason == 0,
            udp: record.ip_protocol == 17,
            remote_ip,
            remote_port: record.remote_port,
            local_port: record.local_port,
            pid: 0,
            app_id,
            app_path,
        },
    )
}

/// Whether the event's package identifier is to be read.
pub fn reads_package(record: &NetEventRecord) -> (r: bool)
    ensures
        r == record@.packaged(),
{
    record.flags & FLAG_PACKAGE_ID_SET != 0 && record.has_package
}

/// The package behind a connection, as far as it could be found out.
#[derive(Debug, PartialEq, Eq)]
pub struct PackageIdentity {
    pub sid: Option<Vec<u8>>,
    pub sid_string: Option<String>,
    pub account_name: Option<String>,
}

/// The account name of a security identifier: `domain\name`, or the name alone
/// where the domain is blank; none where the name is blank.
pub open spec fn account_name_of(name: Seq<char>, domain: Seq<char>) -> Option<Seq<char>> {
    if apps::trimmed(name).len() == 0 {
        None
    } else if apps::trimmed(domain).len() == 0 {
        Some(name)
    } else {
        Some(domain + seq!['\\'] + name)
    }
}

/// The account name from the two buffers that an account lookup filled.
pub fn account_name(name: &Vec<u16>, domain: &Vec<u16>) -> (r: Option<String>)
    ensures
        text::text_option(r) == account_name_of(
            utf16_text(up_to_nul(name@)),
            utf16_text(up_to_nul(domain@)),
        ),
{
    let name: String = text_up_to_nul(name);
    let domain: String = text_up_to_nul(domain);
    compose_account_name(name.as_str(), domain.as_str())
}

/// The account name from a name and a domain.
pub fn compose_account_name(name: &str, domain: &str) -> (r: Option<String>)
    ensures
        text::text_option(r) == account_name_of(name@, domain@),
{
    if apps::is_blank(name) {
        return None;
    }
    if apps::is_blank(domain) {
        return Some(name.to_owned());
    }
    let mut out: String = domain.to_owned();
    out.push('\\');
    out.append(name);
    proof {
        assert(out@ =~= domain@ + seq!['\\'] + name@);
    }
    Some(out)
}

} // verus!
