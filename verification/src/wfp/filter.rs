//! What a packet filter is asked to install: layers, conditions, filters.

use vstd::prelude::*;
use vstd::string::*;

use crate::ip::{IpAddr, Ipv6Addr};
use crate::text;
use crate::wfp::{AppProtocol, RemoteMatch};

verus! {

/// Where in the network stack a filter sits.
#[derive(Debug, Clone, Copy, PartialEq, Eq, Structural)]
pub enum Layer {
    /// New outbound connections over IPv4.
    ConnectV4,
    /// New outbound connections over IPv6.
    ConnectV6,
    /// New inbound connections over IPv4.
    AcceptV4,
    /// New inbound connections over IPv6.
    AcceptV6,
}

#[derive(Debug, Clone, Copy, PartialEq, Eq, Structural)]
pub enum FilterAction {
    Permit,
    Block,
}

/// Whom a filter is about.
#[derive(Debug, PartialEq, Eq)]
pub enum Identity {
    AppId(Vec<u8>),
    PackageSid(Vec<u8>),
}

pub enum IdentityModel {
    AppId(Seq<u8>),
    PackageSid(Seq<u8>),
}

impl View for Identity {
    type V = IdentityModel;

    open spec fn view(&self) -> IdentityModel {
        match self {
            Identity::AppId(b) => IdentityModel::AppId(b@),
            Identity::PackageSid(b) => IdentityModel::PackageSid(b@),
        }
    }
}

impl IdentityModel {
    pub open spec fn bytes(self) -> Seq<u8> {
        match self {
            IdentityModel::AppId(b) => b,
            IdentityModel::PackageSid(b) => b,
        }
    }

    /// An identifier is neither empty nor longer than a 32-bit size can say.
    pub open spec fn valid(self) -> bool {
        0 < self.bytes().len() <= u32::MAX
    }
}

/// One condition of a filter. A filter applies where all of them hold.
#[derive(Debug, PartialEq, Eq)]
pub enum Condition {
    AppId(Vec<u8>),
    PackageId(Vec<u8>),
    Protocol(u8),
    /// The IPv4 address as a number, the first octet the most significant.
    RemoteV4(u32),
    RemoteV6(Ipv6Addr),
    RemoteV4Net { addr: u32, mask: u32 },
    RemoteV6Net { addr: Ipv6Addr, prefix: u8 },
    RemotePort(u16),
}

pub enum ConditionModel {
    AppId(Seq<u8>),
    PackageId(Seq<u8>),
    Protocol(u8),
    RemoteV4(u32),
    RemoteV6(Ipv6Addr),
    RemoteV4Net { addr: u32, mask: u32 },
    RemoteV6Net { addr: Ipv6Addr, prefix: u8 },
    RemotePort(u16),
}

impl View for Condition {
    type V = ConditionModel;

    open spec fn view(&self) -> ConditionModel {
        match self {
            Condition::AppId(b) => ConditionModel::AppId(b@),
            Condition::PackageId(b) => ConditionModel::PackageId(b@),
            Condition::Protocol(p) => ConditionModel::Protocol(*p),
            Condition::RemoteV4(a) => ConditionModel::RemoteV4(*a),
            Condition::RemoteV6(a) => ConditionModel::RemoteV6(*a),
            Condition::RemoteV4Net { addr, mask } => ConditionModel::RemoteV4Net {
                addr: *addr,
                mask: *mask,
            },
            Condition::RemoteV6Net { addr, prefix } => ConditionModel::RemoteV6Net {
                addr: *addr,
                prefix: *prefix,
            },
            Condition::RemotePort(p) => ConditionModel::RemotePort(*p),
        }
    }
}

/// A filter to install.
#[derive(Debug, PartialEq, Eq)]
pub struct FilterSpec {
    pub layer: Layer,
    pub action: FilterAction,
    /// Among the filters that apply, the one with the greatest weight decides.
    pub weight: u8,
    pub conditions: Vec<Condition>,
    pub name: &'static str,
}

#[verifier::ext_equal]
pub struct FilterModel {
    pub layer: Layer,
    pub action: FilterAction,
    pub weight: u8,
    pub conditions: Seq<ConditionModel>,
    pub name: Seq<char>,
}

/// A list of conditions.
pub open spec fn conditions_view(c: Seq<Condition>) -> Seq<ConditionModel> {
    c.map_values(|c: Condition| c@)
}

impl View for FilterSpec {
    type V = FilterModel;

    open spec fn view(&self) -> FilterModel {
        FilterModel {
            layer: self.layer,
            action: self.action,
            weight: self.weight,
            conditions: conditions_view(self.conditions@),
            name: self.name@,
        }
    }
}

/// A list of filters.
pub open spec fn filters_view(f: Seq<FilterSpec>) -> Seq<FilterModel> {
    f.map_values(|f: FilterSpec| f@)
}

/// The mask with the first `prefix` bits set; a prefix beyond 32 counts as 32.
pub open spec fn mask_of(prefix: u8) -> u32 {
    if prefix == 0 {
        0
    } else if prefix >= 32 {
        0xffff_ffff
    } else {
        0xffff_ffffu32 << ((32 - prefix) as u32)
    }
}

pub fn ipv4_prefix_mask(prefix: u8) -> (r: u32)
    ensures
        r == mask_of(prefix),
{
    if prefix == 0 {
        0
    } else if prefix >= 32 {
        0xffff_ffff
    } else {
        0xffff_ffffu32 << ((32 - prefix) as u32)
    }
}

/// Whether a rule with that remote side has anything to say at the layer.
pub open spec fn matches_layer(remote: Option<RemoteMatch>, layer: Layer) -> bool {
    match remote {
        Some(RemoteMatch::Ip(IpAddr::V4(_))) => layer == Layer::ConnectV4,
        Some(RemoteMatch::Cidr { network: IpAddr::V4(_), .. }) => layer == Layer::ConnectV4,
        Some(RemoteMatch::Ip(IpAddr::V6(_))) => layer == Layer::ConnectV6,
        Some(RemoteMatch::Cidr { network: IpAddr::V6(_), .. }) => layer == Layer::ConnectV6,
        None => true,
    }
}

pub fn target_matches_layer(remote: Option<RemoteMatch>, layer: Layer) -> (r: bool)
    ensures
        r == matches_layer(remote, layer),
{
    match remote {
        Some(RemoteMatch::Ip(IpAddr::V4(_))) => layer == Layer::ConnectV4,
        Some(RemoteMatch::Cidr { network: IpAddr::V4(_), .. }) => layer == Layer::ConnectV4,
        Some(RemoteMatch::Ip(IpAddr::V6(_))) => layer == Layer::ConnectV6,
        Some(RemoteMatch::Cidr { network: IpAddr::V6(_), .. }) => layer == Layer::ConnectV6,
        None => true,
    }
}

pub open spec fn identity_condition(identity: IdentityModel) -> ConditionModel {
    match identity {
        IdentityModel::AppId(b) => ConditionModel::AppId(b),
        IdentityModel::PackageSid(b) => ConditionModel::PackageId(b),
    }
}

pub open spec fn protocol_number(protocol: AppProtocol) -> Option<u8> {
    match protocol {
        AppProtocol::All => None,
        AppProtocol::Tcp => Some(6),
        AppProtocol::Udp => Some(17),
    }
}

pub open spec fn remote_condition(remote: RemoteMatch) -> ConditionModel {
    match remote {
        RemoteMatch::Ip(IpAddr::V4(a)) => ConditionModel::RemoteV4(a.bits),
        RemoteMatch::Ip(IpAddr::V6(a)) => ConditionModel::RemoteV6(a),
        RemoteMatch::Cidr { network: IpAddr::V4(a), prefix } => ConditionModel::RemoteV4Net {
            addr: a.bits,
            mask: mask_of(prefix),
        },
        RemoteMatch::Cidr { network: IpAddr::V6(a), prefix } => ConditionModel::RemoteV6Net {
            addr: a,
            prefix,
        },
    }
}

/// The conditions of a filter on an application: who, and then the protocol, the
/// remote side and the remote port as far as they are limited.
pub open spec fn rule_conditions(
    identity: IdentityModel,
    protocol: AppProtocol,
    remote: Option<RemoteMatch>,
    port: Option<u16>,
) -> Seq<ConditionModel> {
    let c = seq![identity_condition(identity)];
    let c = match protocol_number(protocol) {
        Some(p) => c.push(ConditionModel::Protocol(p)),
        None => c,
    };
    let c = match remote {
        Some(r) => c.push(remote_condition(r)),
        None => c,
    };
    match port {
        Some(p) => c.push(ConditionModel::RemotePort(p)),
        None => c,
    }
}

pub fn conditions_for(
    identity: &Identity,
    protocol: AppProtocol,
    remote: Option<RemoteMatch>,
    port: Option<u16>,
) -> (r: Vec<Condition>)
    ensures
        conditions_view(r@) == rule_conditions(identity@, protocol, remote, port),
{
    let mut c: Vec<Condition> = Vec::new();
    match identity {
        Identity::AppId(b) => c.push(Condition::AppId(text::copy_bytes(b))),
        Identity::PackageSid(b) => c.push(Condition::PackageId(text::copy_bytes(b))),
    }
    match protocol {
        AppProtocol::All => {},
        AppProtocol::Tcp => c.push(Condition::Protocol(6)),
        AppProtocol::Udp => c.push(Condition::Protocol(17)),
    }
    if let Some(m) = remote {
        c.push(
            match m {
                RemoteMatch::Ip(IpAddr::V4(a)) => Condition::RemoteV4(a.bits),
                RemoteMatch::Ip(IpAddr::V6(a)) => Condition::RemoteV6(a),
                RemoteMatch::Cidr { network: IpAddr::V4(a), prefix } => Condition::RemoteV4Net {
                    addr: a.bits,
                    mask: ipv4_prefix_mask(prefix),
                },
                RemoteMatch::Cidr { network: IpAddr::V6(a), prefix } => Condition::RemoteV6Net {
                    addr: a,
                    prefix,
                },
            },
        );
    }
    if let Some(p) = port {
        c.push(Condition::RemotePort(p));
    }
    proof {
        assert(conditions_view(c@) =~= rule_conditions(identity@, protocol, remote, port));
    }
    c
}

/// The filter that blocks an application or a package at one layer.
pub open spec fn identity_block(
    identity: IdentityModel,
    layer: Layer,
    protocol: AppProtocol,
    remote: Option<RemoteMatch>,
    port: Option<u16>,
) -> FilterModel {
    FilterModel {
        layer,
        action: FilterAction::Block,
        weight: 15,
        conditions: rule_conditions(identity, protocol, remote, port),
        name: "m0untain application quarantine"@,
    }
}

/// The filter that blocks an application or a package at one layer; none where
/// the remote side does not occur at that layer.
pub fn identity_block_filter(
    identity: &Identity,
    layer: Layer,
    protocol: AppProtocol,
    remote: Option<RemoteMatch>,
    port: Option<u16>,
) -> (r: Result<Option<FilterSpec>, String>)
    ensures
        match r {
            Err(e) => !identity@.valid() && e@ == "invalid WFP application/package identifier"@,
            Ok(None) => identity@.valid() && !matches_layer(remote, layer),
            Ok(Some(f)) => identity@.valid() && matches_layer(remote, layer) && f@
                == identity_block(identity@, layer, protocol, remote, port),
        },
{
    let len: usize = match identity {
        Identity::AppId(b) => b.len(),
        Identity::PackageSid(b) => b.len(),
    };
    if len == 0 || len as u64 > u32::MAX as u64 {
        return Err("invalid WFP application/package identifier".to_owned());
    }
    if !target_matches_layer(remote, layer) {
        return Ok(None);
    }
    Ok(
        Some(
            FilterSpec {
                layer,
                action: FilterAction::Block,
                weight: 15,
                conditions: conditions_for(identity, protocol, remote, port),
                name: "m0untain application quarantine",
            },
        ),
    )
}

/// The filter that blocks one remote address at one layer.
pub open spec fn address_block(ip: IpAddr, layer: Layer) -> FilterModel {
    FilterModel {
        layer,
        action: FilterAction::Block,
        weight: 15,
        conditions: seq![remote_condition(RemoteMatch::Ip(ip))],
        name: "m0untain block"@,
    }
}

pub fn address_block_filter(ip: IpAddr, layer: Layer) -> (r: FilterSpec)
    ensures
        r@ == address_block(ip, layer),
{
    let mut conditions: Vec<Condition> = Vec::new();
    conditions.push(
        match ip {
            IpAddr::V4(a) => Condition::RemoteV4(a.bits),
            IpAddr::V6(a) => Condition::RemoteV6(a),
        },
    );
    proof {
        assert(conditions_view(conditions@) =~= seq![remote_condition(RemoteMatch::Ip(ip))]);
    }
    FilterSpec { layer, action: FilterAction::Block, weight: 15, conditions, name: "m0untain block" }
}

/// A connection attempt, as the packet filter sees it.
pub struct Flow {
    pub app_id: Seq<u8>,
    pub package: Option<Seq<u8>>,
    pub protocol: u8,
    pub remote: IpAddr,
    pub remote_port: u16,
}

/// Whether two IPv6 addresses agree in their first `prefix` bits.
pub open spec fn same_v6_network(a: Ipv6Addr, b: Ipv6Addr, prefix: u8) -> bool {
    prefix == 0 || if prefix >= 128 {
        a.bits == b.bits
    } else {
        a.bits >> ((128 - prefix) as u128) == b.bits >> ((128 - prefix) as u128)
    }
}

/// Whether two IPv4 addresses agree in their first `prefix` bits.
pub open spec fn same_v4_network(a: u32, b: u32, prefix: u8) -> bool {
    prefix == 0 || if prefix >= 32 {
        a == b
    } else {
        a >> ((32 - prefix) as u32) == b >> ((32 - prefix) as u32)
    }
}

impl ConditionModel {
    pub open spec fn holds(self, flow: Flow) -> bool {
        match self {
            ConditionModel::AppId(b) => flow.app_id == b,
            ConditionModel::PackageId(b) => flow.package == Some(b),
            ConditionModel::Protocol(p) => flow.protocol == p,
            ConditionModel::RemoteV4(a) => flow.remote matches IpAddr::V4(x) && x.bits == a,
            ConditionModel::RemoteV6(a) => flow.remote == IpAddr::V6(a),
            ConditionModel::RemoteV4Net { addr, mask } => flow.remote matches IpAddr::V4(x)
                && x.bits & mask == addr & mask,
            ConditionModel::RemoteV6Net { addr, prefix } => flow.remote matches IpAddr::V6(x)
                && same_v6_network(x, addr, prefix),
            ConditionModel::RemotePort(p) => flow.remote_port == p,
        }
    }
}

/// Whether all conditions hold.
pub open spec fn all_hold(c: Seq<ConditionModel>, flow: Flow) -> bool {
    forall|i: int| 0 <= i < c.len() ==> (#[trigger] c[i]).holds(flow)
}

/// Whether an address lies in the remote side of a rule.
pub open spec fn in_target(remote: Option<RemoteMatch>, ip: IpAddr) -> bool {
    match remote {
        None => true,
        Some(RemoteMatch::Ip(a)) => ip == a,
        Some(RemoteMatch::Cidr { network: IpAddr::V4(n), prefix }) => ip matches IpAddr::V4(x)
            && same_v4_network(x.bits, n.bits, prefix),
        Some(RemoteMatch::Cidr { network: IpAddr::V6(n), prefix }) => ip matches IpAddr::V6(x)
            && same_v6_network(x, n, prefix),
    }
}

/// Whether the attempt is made by the application or package.
pub open spec fn made_by(identity: IdentityModel, flow: Flow) -> bool {
    match identity {
        IdentityModel::AppId(b) => flow.app_id == b,
        IdentityModel::PackageSid(b) => flow.package == Some(b),
    }
}

/// An address matches a network under its mask exactly if the two agree in
/// their first `prefix` bits.
pub proof fn mask_selects_the_network(addr: u32, network: u32, prefix: u8)
    ensures
        addr & mask_of(prefix) == network & mask_of(prefix) <==> same_v4_network(
            addr,
            network,
            prefix,
        ),
{
    if prefix == 0 {
        assert(addr & 0 == network & 0) by (bit_vector);
    } else if prefix >= 32 {
        assert(addr & 0xffff_ffff == addr && network & 0xffff_ffff == network) by (bit_vector);
    } else {
        let k = (32 - prefix) as u32;
        assert((addr & (0xffff_ffffu32 << k) == network & (0xffff_ffffu32 << k)) <==> (addr >> k
            == network >> k)) by (bit_vector)
            requires
                0 < k < 32,
        ;
    }
}

/// The conditions of a rule hold of exactly the attempts that the rule is
/// about: made by its application, over its protocol, to its target and port.
pub proof fn conditions_mean_the_rule(
    identity: IdentityModel,
    protocol: AppProtocol,
    remote: Option<RemoteMatch>,
    port: Option<u16>,
    flow: Flow,
)
    ensures
        all_hold(rule_conditions(identity, protocol, remote, port), flow) <==> {
            &&& made_by(identity, flow)
            &&& protocol_number(protocol) matches Some(p) ==> flow.protocol == p
            &&& in_target(remote, flow.remote)
            &&& port matches Some(p) ==> flow.remote_port == p
        },
{
    let c1 = seq![identity_condition(identity)];
    let c2 = match protocol_number(protocol) {
        Some(p) => c1.push(ConditionModel::Protocol(p)),
        None => c1,
    };
    let c3 = match remote {
        Some(r) => c2.push(remote_condition(r)),
        None => c2,
    };
    let c4 = rule_conditions(identity, protocol, remote, port);
    assert(all_hold(c1, flow) <==> made_by(identity, flow)) by {
        assert(c1[0] == identity_condition(identity));
    }
    if let Some(p) = protocol_number(protocol) {
        lemma_one_more(c1, ConditionModel::Protocol(p), flow);
    }
    if let Some(r) = remote {
        lemma_one_more(c2, remote_condition(r), flow);
        if let RemoteMatch::Cidr { network: IpAddr::V4(n), prefix } = r {
            if let IpAddr::V4(x) = flow.remote {
                mask_selects_the_network(x.bits, n.bits, prefix);
            }
        }
    }
    if let Some(p) = port {
        lemma_one_more(c3, ConditionModel::RemotePort(p), flow);
    }
}

proof fn lemma_one_more(c: Seq<ConditionModel>, x: ConditionModel, flow: Flow)
    ensures
        all_hold(c.push(x), flow) <==> all_hold(c, flow) && x.holds(flow),
{
    let d = c.push(x);
    if all_hold(d, flow) {
        assert(d[c.len() as int].holds(flow));
        assert forall|i: int| 0 <= i < c.len() implies (#[trigger] c[i]).holds(flow) by {
            assert(d[i].holds(flow));
        }
    }
    if all_hold(c, flow) && x.holds(flow) {
        assert forall|i: int| 0 <= i < d.len() implies (#[trigger] d[i]).holds(flow) by {
            if i < c.len() {
                assert(c[i].holds(flow));
            }
        }
    }
}

/// A target occurs at the outbound layer of its own family and at no other;
/// without a target, both outbound layers are concerned.
pub proof fn target_has_an_outbound_layer(remote: Option<RemoteMatch>)
    ensures
        matches_layer(remote, Layer::ConnectV4) || matches_layer(remote, Layer::ConnectV6),
        remote is Some ==> matches_layer(remote, Layer::ConnectV4) != matches_layer(
            remote,
            Layer::ConnectV6,
        ),
{
}

} // verus!
