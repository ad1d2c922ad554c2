//! The packet filter: what is installed blocks exactly what was asked for, and
//! what is reported is what was seen.

use vstd::arithmetic::power2::pow2;
use vstd::prelude::*;
use vstd::string::*;

use crate::apps;
use crate::book;
use crate::ip;
use crate::ip::{IpAddr, Ipv6Addr};
use crate::programs::Programs;
use crate::text;
use crate::wfp::filter;
use crate::wfp::filter::{
    address_block_filter, conditions_for, identity_block_filter, ipv4_prefix_mask, Condition,
    FilterAction, FilterSpec, Flow, Identity, Layer,
};
use crate::wfp::install;
use crate::wfp::install::{
    deleted, engine_opened, sublayer_added, subscribed, HandleTable, Installation, Purpose,
    Rollback,
};
use crate::wfp::netevent;
use crate::wfp::netevent::{
    account_name, compose_account_name, decode, reads_package, text_up_to_nul, NetEventRecord,
};
use crate::wfp::{AppProtocol, Firewall, RawConn, RemoteMatch, Request};

verus! {

/// Whether a protocol number is in a scope: TCP is 6 and UDP is 17.
pub open spec fn in_scope(scope: AppProtocol, number: u8) -> bool {
    match scope {
        AppProtocol::All => true,
        AppProtocol::Tcp => number == 6,
        AppProtocol::Udp => number == 17,
    }
}

/// Whether two IPv4 addresses lie in the same network of that prefix length: the
/// numbers agree above the host part.
pub open spec fn same_network4(a: u32, b: u32, prefix: u8) -> bool {
    let hosts = if prefix >= 32 {
        1
    } else {
        pow2((32 - prefix) as nat) as int
    };
    a as int / hosts == b as int / hosts
}

proof fn lemma_same_network4(a: u32, b: u32, prefix: u8)
    ensures
        filter::same_v4_network(a, b, prefix) <==> same_network4(a, b, prefix),
{
    if prefix == 0 {
        vstd::arithmetic::power2::lemma2_to64();
        assert(pow2(32) == 0x1_0000_0000);
        assert(a as int / 0x1_0000_0000 == 0 && b as int / 0x1_0000_0000 == 0);
    } else if prefix < 32 {
        let k = (32 - prefix) as u32;
        vstd::bits::lemma_u32_shr_is_div(a, k);
        vstd::bits::lemma_u32_shr_is_div(b, k);
    } else {
        assert(a as int / 1 == a && b as int / 1 == b);
    }
}

/// The mask of a prefix selects the network: two addresses agree under it exactly
/// if they lie in the same network of that prefix length.
pub proof fn mask_selects_networks(prefix: u8, mask: u32, a: u32, b: u32)
    requires
        call_ensures(ipv4_prefix_mask, (prefix,), mask),
    ensures
        a & mask == b & mask <==> same_network4(a, b, prefix),
{
    filter::mask_selects_the_network(a, b, prefix);
    lemma_same_network4(a, b, prefix);
}

/// Whether an address lies in the remote side of a rule.
pub open spec fn lies_in(remote: Option<RemoteMatch>, ip: IpAddr) -> bool {
    match remote {
        None => true,
        Some(RemoteMatch::Ip(a)) => ip == a,
        Some(RemoteMatch::Cidr { network, prefix }) => match (network, ip) {
            (IpAddr::V4(n), IpAddr::V4(x)) => same_network4(x.bits, n.bits, prefix),
            (IpAddr::V6(n), IpAddr::V6(x)) => filter::same_v6_network(x, n, prefix),
            _ => false,
        },
    }
}

/// Targets mean what they say: an address is itself, a network is the addresses
/// of its family that share its prefix, and no target is everything.
pub proof fn targets_mean_what_they_say(remote: Option<RemoteMatch>, ip: IpAddr)
    ensures
        filter::in_target(remote, ip) <==> lies_in(remote, ip),
{
    if let Some(RemoteMatch::Cidr { network: IpAddr::V4(n), prefix }) = remote {
        if let IpAddr::V4(x) = ip {
            lemma_same_network4(x.bits, n.bits, prefix);
        }
    }
}

/// Whether two IPv6 addresses lie in the same network of that prefix length.
pub open spec fn same_network6(a: u128, b: u128, prefix: u8) -> bool {
    let hosts = if prefix >= 128 {
        1
    } else {
        pow2((128 - prefix) as nat) as int
    };
    a as int / hosts == b as int / hosts
}

/// IPv6 networks are the addresses that agree above the host part, as IPv4
/// networks are.
pub proof fn ipv6_networks_share_their_prefix(a: Ipv6Addr, b: Ipv6Addr, prefix: u8)
    ensures
        filter::same_v6_network(a, b, prefix) <==> same_network6(a.bits, b.bits, prefix),
{
    if prefix == 0 {
        vstd::arithmetic::power2::lemma2_to64();
        vstd::arithmetic::power2::lemma_pow2_adds(64, 64);
        let hosts = pow2(128) as int;
        assert(hosts == 0x1_0000_0000_0000_0000 * 0x1_0000_0000_0000_0000);
        vstd::arithmetic::div_mod::lemma_basic_div(a.bits as int, hosts);
        vstd::arithmetic::div_mod::lemma_basic_div(b.bits as int, hosts);
    } else if prefix < 128 {
        let k = (128 - prefix) as u128;
        vstd::bits::lemma_u128_shr_is_div(a.bits, k);
        vstd::bits::lemma_u128_shr_is_div(b.bits, k);
    } else {
        assert(a.bits as int / 1 == a.bits && b.bits as int / 1 == b.bits);
    }
}

/// The conditions of a filter: who, over which protocol, to which address or
/// network, and to which port. What is left open is no condition.
pub proof fn conditions_are_what_was_named(
    app_id: Vec<u8>,
    protocol: AppProtocol,
    remote: Option<RemoteMatch>,
    port: Option<u16>,
    r: Vec<Condition>,
    mask: u32,
)
    requires
        call_ensures(conditions_for, (&Identity::AppId(app_id), protocol, remote, port), r),
        remote matches Some(RemoteMatch::Cidr { network: IpAddr::V4(_), prefix })
            ==> call_ensures(ipv4_prefix_mask, (prefix,), mask),
    ensures
        ({
            let p = if protocol == AppProtocol::All {
                0int
            } else {
                1
            };
            let q = if remote is None {
                p
            } else {
                p + 1
            };
            let n = if port is None {
                q
            } else {
                q + 1
            };
            &&& r@.len() == n + 1
            &&& r@[0] matches Condition::AppId(b) && b@ == app_id@
            &&& protocol == AppProtocol::Tcp ==> r@[1] == Condition::Protocol(6)
            &&& protocol == AppProtocol::Udp ==> r@[1] == Condition::Protocol(17)
            &&& match remote {
                None => true,
                Some(RemoteMatch::Ip(IpAddr::V4(a))) => r@[q] == Condition::RemoteV4(a.bits),
                Some(RemoteMatch::Ip(IpAddr::V6(a))) => r@[q] == Condition::RemoteV6(a),
                Some(RemoteMatch::Cidr { network: IpAddr::V4(a), .. }) => r@[q] == (
                Condition::RemoteV4Net { addr: a.bits, mask }),
                Some(RemoteMatch::Cidr { network: IpAddr::V6(a), prefix }) => r@[q] == (
                Condition::RemoteV6Net { addr: a, prefix }),
            }
            &&& port matches Some(x) ==> r@[n] == Condition::RemotePort(x)
        }),
{
    let c = filter::conditions_view(r@);
    let m = filter::rule_conditions(Identity::AppId(app_id)@, protocol, remote, port);
    assert(c.len() == r@.len());
    assert forall|i: int| 0 <= i < r@.len() implies #[trigger] r@[i]@ == m[i] by {
        assert(c[i] == r@[i]@);
    }
    assert(r@[0]@ == m[0]);
    if r@.len() > 1 {
        assert(r@[1]@ == m[1]);
    }
    if r@.len() > 2 {
        assert(r@[2]@ == m[2]);
    }
    if r@.len() > 3 {
        assert(r@[3]@ == m[3]);
    }
}

/// Who makes an attempt.
pub open spec fn made_by(identity: Identity, flow: Flow) -> bool {
    match identity {
        Identity::AppId(b) => flow.app_id == b@,
        Identity::PackageSid(b) => flow.package == Some(b@),
    }
}

pub open spec fn identity_len(identity: Identity) -> nat {
    match identity {
        Identity::AppId(b) => b@.len(),
        Identity::PackageSid(b) => b@.len(),
    }
}

/// The family of an outbound layer.
pub open spec fn family(layer: Layer) -> bool {
    layer == Layer::ConnectV6 || layer == Layer::AcceptV6
}

pub open spec fn is_v6(ip: IpAddr) -> bool {
    ip is V6
}

/// A filter against an application or package blocks exactly its attempts within
/// the scope, to the target and port. An identifier that is empty or too long is
/// refused; at a layer of the other family there is no filter.
pub proof fn application_block_is_exact(
    identity: Identity,
    layer: Layer,
    protocol: AppProtocol,
    remote: Option<RemoteMatch>,
    port: Option<u16>,
    r: Result<Option<FilterSpec>, String>,
    flow: Flow,
)
    requires
        call_ensures(identity_block_filter, (&identity, layer, protocol, remote, port), r),
    ensures
        r is Err <==> identity_len(identity) == 0 || identity_len(identity) > u32::MAX,
        r matches Err(e) ==> e@ == "invalid WFP application/package identifier"@,
        r matches Ok(Some(f)) ==> {
            &&& f.layer == layer
            &&& f.action == FilterAction::Block
            &&& f.weight == 15
            &&& f.name@ == "m0untain application quarantine"@
            &&& filter::all_hold(f@.conditions, flow) <==> {
                &&& made_by(identity, flow)
                &&& in_scope(protocol, flow.protocol)
                &&& lies_in(remote, flow.remote)
                &&& port matches Some(p) ==> flow.remote_port == p
            }
        },
        r matches Ok(None) && (layer == Layer::ConnectV4 || layer == Layer::ConnectV6)
            && lies_in(remote, flow.remote) ==> family(layer) != is_v6(flow.remote),
        remote is None ==> !(r matches Ok(None)),
{
    filter::conditions_mean_the_rule(identity@, protocol, remote, port, flow);
    targets_mean_what_they_say(remote, flow.remote);
}

/// A filter against an address blocks exactly what goes to or comes from it.
pub proof fn address_block_is_exact(ip: IpAddr, layer: Layer, r: FilterSpec, flow: Flow)
    requires
        call_ensures(address_block_filter, (ip, layer), r),
    ensures
        r.layer == layer,
        r.action == FilterAction::Block,
        r.weight == 15,
        r.name@ == "m0untain block"@,
        filter::all_hold(r@.conditions, flow) <==> flow.remote == ip,
{
    assert(r@.conditions.len() == 1);
    assert(r@.conditions[0].holds(flow) <==> flow.remote == ip);
}

/// Blocking an address installs two filters, for new connections to it and from
/// it, each of which blocks exactly that address.
pub proof fn blocked_address_is_blocked_both_ways(ip: IpAddr, r: Installation, flow: Flow, i: int)
    requires
        call_ensures(Installation::block_ip, (ip,), r),
        0 <= i < 2,
    ensures
        r@.filters.len() == 2,
        r@.ids.len() == 0,
        r@.filters[i].action == FilterAction::Block,
        r@.filters[i].weight == 15,
        filter::all_hold(r@.filters[i].conditions, flow) <==> flow.remote == ip,
        ip is V4 ==> r@.filters[0].layer == Layer::ConnectV4 && r@.filters[1].layer
            == Layer::AcceptV4,
        ip is V6 ==> r@.filters[0].layer == Layer::ConnectV6 && r@.filters[1].layer
            == Layer::AcceptV6,
{
    let c = r@.filters[i].conditions;
    assert(c.len() == 1);
    assert(c[0].holds(flow) <==> flow.remote == ip);
}

/// Blocking an application or package covers every outbound attempt of it within
/// the scope, to the target and port, and nothing else: one of the filters applies
/// at the layer of the attempt, and all of them block just that.
pub proof fn blocked_application_is_blocked(
    identity: Identity,
    protocol: AppProtocol,
    remote: Option<RemoteMatch>,
    port: Option<u16>,
    r: Result<Installation, String>,
    flow: Flow,
)
    requires
        call_ensures(Installation::block_target, (&identity, protocol, remote, port), r),
    ensures
        r is Err <==> identity_len(identity) == 0 || identity_len(identity) > u32::MAX,
        r matches Err(e) ==> e@ == "invalid WFP application/package identifier"@,
        r matches Ok(x) ==> {
            let meant = made_by(identity, flow) && in_scope(protocol, flow.protocol) && lies_in(
                remote,
                flow.remote,
            ) && (port matches Some(p) ==> flow.remote_port == p);
            &&& x@.ids.len() == 0
            &&& meant ==> exists|i: int|
                0 <= i < x@.filters.len() && (#[trigger] x@.filters[i]).layer == (
                if flow.remote is V4 {
                    Layer::ConnectV4
                } else {
                    Layer::ConnectV6
                }) && filter::all_hold(x@.filters[i].conditions, flow) && x@.filters[i].action
                    == FilterAction::Block
            &&& forall|i: int|
                0 <= i < x@.filters.len() ==> (#[trigger] x@.filters[i]).action
                    == FilterAction::Block && x@.filters[i].weight == 15 && (filter::all_hold(x@.filters[i].conditions, flow)
                    <==> meant) && (x@.filters[i].layer == Layer::ConnectV4
                    || x@.filters[i].layer == Layer::ConnectV6)
        },
{
    filter::conditions_mean_the_rule(identity@, protocol, remote, port, flow);
    targets_mean_what_they_say(remote, flow.remote);
    filter::target_has_an_outbound_layer(remote);
    if let Ok(x) = r {
        let f = x@.filters;
        if f.len() == 2 {
            assert(f[0].layer == Layer::ConnectV4 && f[1].layer == Layer::ConnectV6);
        } else {
            assert(f.len() == 1);
            if lies_in(remote, flow.remote) {
                assert(f[0].layer == if flow.remote is V4 {
                    Layer::ConnectV4
                } else {
                    Layer::ConnectV6
                });
            }
        }
    }
}

/// Quarantine means no connection: the filters that a decision to quarantine asks
/// for block every outbound attempt of the application, over any protocol where
/// the decision says "all", and over the named one otherwise; and they block
/// nothing else.
pub proof fn quarantined_application_does_not_connect<F: Firewall>(
    p: &mut Programs,
    fw: &mut F,
    request_id: &str,
    protocol: &str,
    remember: bool,
    r: Result<bool, String>,
    decision: &str,
    app_id: Vec<u8>,
    scope: AppProtocol,
    x: Result<Installation, String>,
    flow: Flow,
)
    requires
        call_ensures(
            Programs::decide_program::<F>,
            (p, fw, request_id, decision, protocol, remember),
            r,
        ),
        decision@ == "quarantine"@,
        protocol@ == "all"@ || protocol@ == "tcp"@ || protocol@ == "udp"@,
        book::has_key(old(p)@.pending, request_id@),
        final(fw).asked().last()->BlockApp_app_id == app_id@,
        final(fw).asked().last()->BlockApp_protocol == scope,
        call_ensures(
            Installation::block_target,
            (&Identity::AppId(app_id), scope, None::<RemoteMatch>, None::<u16>),
            x,
        ),
    ensures
        final(fw).asked().last() is BlockApp,
        x matches Ok(i) ==> {
            let meant = flow.app_id == book::lookup(old(p)@.pending, request_id@)->0.app_id && (
            protocol@ == "all"@ || (protocol@ == "tcp"@ && flow.protocol == 6) || (protocol@
                == "udp"@ && flow.protocol == 17));
            &&& meant ==> exists|k: int|
                0 <= k < i@.filters.len() && (#[trigger] i@.filters[k]).layer == (
                if flow.remote is V4 {
                    Layer::ConnectV4
                } else {
                    Layer::ConnectV6
                }) && filter::all_hold(i@.filters[k].conditions, flow) && i@.filters[k].action
                    == FilterAction::Block
            &&& !meant ==> forall|k: int|
                0 <= k < i@.filters.len() ==> !filter::all_hold(
                    (#[trigger] i@.filters[k]).conditions,
                    flow,
                )
        },
{
    crate::laws::words::protocols_differ();
    crate::laws::control::quarantine_asks_for_the_named_scope::<F>(
        p,
        fw,
        request_id,
        decision,
        protocol,
        remember,
        r,
    );
    blocked_application_is_blocked(Identity::AppId(app_id), scope, None, None, x, flow);
}

/// Filters go in one by one, in order. What went in is kept by its id; on the
/// first failure everything that went in is to be taken out again, and the
/// failure is reported.
pub proof fn installation_is_all_or_nothing(
    x: &mut Installation,
    status: u32,
    id: u64,
    r: Result<(), Rollback>,
)
    requires
        old(x)@.wf(),
        !old(x)@.complete(),
        call_ensures(Installation::added, (x, status, id), r),
    ensures
        r is Ok <==> status == 0,
        final(x)@.filters == old(x)@.filters,
        r is Ok ==> final(x)@.ids == old(x)@.ids.push(id),
        r matches Err(b) ==> final(x)@.ids.len() == 0 && b.delete@ == old(x)@.ids && b.error@ == (
        match old(x)@.purpose {
            Purpose::Address => "FwpmFilterAdd0 failed: "@,
            Purpose::Application => "FwpmFilterAdd0(app) failed: "@,
        }) + text::decimal(status as nat),
{
}

/// The next filter is the first that is not in; there is none exactly if all are.
pub proof fn next_filter_is_the_first_missing(x: Installation, r: Option<&FilterSpec>)
    requires
        x@.wf(),
        call_ensures(Installation::next, (&x,), r),
    ensures
        r is None <==> x@.ids.len() == x@.filters.len(),
        r matches Some(f) ==> f@ == x@.filters[x@.ids.len() as int],
{
}

/// A handle is new when it is given out, and gives back, once, what was filed
/// under it; other handles are not touched.
pub proof fn handles_give_back_what_was_filed(
    t: &mut HandleTable,
    ids: Vec<u64>,
    handle: u64,
    u: &mut HandleTable,
    taken: Option<Vec<u64>>,
    other: u64,
)
    requires
        old(t)@.wf(),
        old(t)@.next_handle < u64::MAX,
        call_ensures(HandleTable::register, (t, ids), handle),
        old(u)@ == final(t)@,
        call_ensures(HandleTable::take, (u, handle), taken),
    ensures
        !old(t)@.filters.contains_key(handle),
        taken matches Some(v) && v@ == ids@,
        !final(u)@.filters.contains_key(handle),
        other != handle ==> final(u)@.filters.contains_key(other) == old(t)@.filters.contains_key(other),
        other != handle && old(t)@.filters.contains_key(other) ==> final(u)@.filters[other]
            == old(t)@.filters[other],
        final(u)@.next_handle > handle,
{
}

proof fn lemma_first_failure(s: Seq<u32>)
    ensures
        match install::first_failure(s) {
            Some(x) => x != 0 && exists|i: int|
                0 <= i < s.len() && #[trigger] s[i] == x && forall|j: int|
                    0 <= j < i ==> #[trigger] s[j] == 0,
            None => forall|i: int| 0 <= i < s.len() ==> #[trigger] s[i] == 0,
        },
    decreases s.len(),
{
    if s.len() > 0 {
        if s[0] != 0 {
            assert(s[0] == install::first_failure(s)->0);
        } else {
            let tail = s.drop_first();
            lemma_first_failure(tail);
            match install::first_failure(tail) {
                Some(x) => {
                    let i = choose|i: int|
                        0 <= i < tail.len() && #[trigger] tail[i] == x && forall|j: int|
                            0 <= j < i ==> #[trigger] tail[j] == 0;
                    assert forall|j: int| 0 <= j < i + 1 implies #[trigger] s[j] == 0 by {
                        if j > 0 {
                            assert(tail[j - 1] == s[j]);
                        }
                    }
                    assert(s[i + 1] == x);
                },
                None => {
                    assert forall|i: int| 0 <= i < s.len() implies #[trigger] s[i] == 0 by {
                        if i > 0 {
                            assert(tail[i - 1] == s[i]);
                        }
                    }
                },
            }
        }
    }
}

/// Deleting succeeds where every deletion does, and otherwise reports the first
/// that does not.
pub proof fn first_failed_deletion_is_reported(statuses: Vec<u32>, r: Result<(), String>)
    requires
        call_ensures(deleted, (&statuses,), r),
    ensures
        r is Ok <==> forall|i: int| 0 <= i < statuses@.len() ==> #[trigger] statuses@[i] == 0,
        r matches Err(e) ==> exists|i: int|
            0 <= i < statuses@.len() && #[trigger] statuses@[i] != 0 && (forall|j: int|
                0 <= j < i ==> #[trigger] statuses@[j] == 0) && e@
                == "FwpmFilterDeleteById0 failed: "@ + text::decimal(statuses@[i] as nat),
{
    lemma_first_failure(statuses@);
}

/// The engine and the subscription need success; the sublayer may be there
/// already.
pub proof fn start_outcomes(
    status: u32,
    engine: Result<(), String>,
    sublayer: Result<(), String>,
    subscription: Result<(), String>,
)
    requires
        call_ensures(engine_opened, (status,), engine),
        call_ensures(sublayer_added, (status,), sublayer),
        call_ensures(subscribed, (status,), subscription),
    ensures
        engine is Ok <==> status == 0,
        sublayer is Ok <==> status == 0 || status == 0x8032_0009,
        subscription is Ok <==> status == 0,
        engine matches Err(e) ==> e@ == "FwpmEngineOpen0 failed: "@ + text::decimal(status as nat),
        sublayer matches Err(e) ==> e@ == "FwpmSubLayerAdd0 failed: "@ + text::decimal(
            status as nat,
        ) + ". Run m0untain as administrator."@,
        subscription matches Err(e) ==> e@ == "FwpmNetEventSubscribe4 failed: "@ + text::decimal(
            status as nat,
        ),
{
}

/// Whether a bit of the header is set.
pub open spec fn flagged(flags: u32, bit: u32) -> bool {
    flags & bit != 0
}

/// An event becomes an observation exactly if it is a classified allow or drop
/// with details, and its remote address and version are set and known. The
/// observation then says what the event says.
pub proof fn events_are_observed_as_reported(
    record: NetEventRecord,
    now: u64,
    r: Option<RawConn>,
)
    requires
        call_ensures(decode, (&record, now), r),
    ensures
        r is Some <==> {
            &&& record.event_type == 6 || record.event_type == 3
            &&& record.details is Some
            &&& flagged(record.flags, 4) && flagged(record.flags, 256)
            &&& record.ip_version == 0 || record.ip_version == 1
        },
        r matches Some(c) ==> {
            &&& c.ts_ms == now
            &&& c.inbound <==> record.details->0.direction == 1
            &&& c.is_new <==> record.details->0.reauth_reason == 0
            &&& c.udp <==> record.ip_protocol == 17
            &&& c.remote_port == record.remote_port
            &&& c.local_port == record.local_port
            &&& c.pid == 0
            &&& record.ip_version == 0 ==> (c.remote_ip matches IpAddr::V4(a) && a.bits
                == record.remote_v4)
            &&& record.ip_version == 1 ==> (c.remote_ip matches IpAddr::V6(a) && a.bits
                == ip::from_big_endian(record.remote_v6@) as u128)
            &&& (record.app_id matches Some(b) && flagged(record.flags, 32) && b@.len() >= 2) ==> (
            c.app_id matches Some(x) && x@ == record.app_id->0@ && c.app_path is Some)
            &&& !(record.app_id matches Some(b) && flagged(record.flags, 32) && b@.len() >= 2)
                ==> c.app_id is None && c.app_path is None
        },
{
}

proof fn lemma_up_to_nul(s: Seq<u16>)
    ensures
        ({
            let t = netevent::up_to_nul(s);
            &&& t.len() <= s.len()
            &&& forall|i: int| 0 <= i < t.len() ==> #[trigger] t[i] == s[i] && t[i] != 0
            &&& t.len() < s.len() ==> s[t.len() as int] == 0
        }),
    decreases s.len(),
{
    if s.len() > 0 && s[0] != 0 {
        let tail = s.drop_first();
        lemma_up_to_nul(tail);
        let t = netevent::up_to_nul(s);
        let u = netevent::up_to_nul(tail);
        assert forall|i: int| 0 <= i < t.len() implies #[trigger] t[i] == s[i] && t[i] != 0 by {
            if i > 0 {
                assert(t[i] == u[i - 1]);
                assert(u[i - 1] == tail[i - 1]);
            }
        }
        if t.len() < s.len() {
            assert(tail[u.len() as int] == 0);
        }
    }
}

/// The path of an observation is the text of the identifier's code units, the low
/// byte of each first, up to the first zero unit.
pub proof fn path_is_read_from_the_identifier(
    record: NetEventRecord,
    now: u64,
    r: Option<RawConn>,
    units: Seq<u16>,
    n: int,
)
    requires
        call_ensures(decode, (&record, now), r),
        r matches Some(c) && c.app_id is Some,
        units.len() == record.app_id->0@.len() / 2,
        forall|i: int|
            0 <= i < units.len() ==> #[trigger] units[i] == record.app_id->0@[2 * i]
                + 256 * record.app_id->0@[2 * i + 1],
        0 <= n <= units.len(),
        forall|i: int| 0 <= i < n ==> #[trigger] units[i] != 0,
        n < units.len() ==> units[n] == 0,
    ensures
        r->0.app_path->0@ == netevent::utf16_text(units.take(n)),
{
    let b = record.app_id->0@;
    assert(netevent::units_of(b) =~= units);
    lemma_up_to_nul(units);
    let t = netevent::up_to_nul(units);
    if t.len() < n {
        assert(units[t.len() as int] == 0);
    }
    if t.len() > n {
        assert(t[n] != 0);
    }
    assert(t =~= units.take(n));
}

/// Text is decoded unit by unit: a plain unit is its own character, two halves of
/// a pair are one, and a half alone is a replacement character. What follows does
/// not change what was decoded.
pub proof fn units_are_decoded_one_by_one(units: Seq<u16>)
    requires
        units.len() > 0,
    ensures
        ({
            let u = units[0];
            let high = 0xd800 <= u <= 0xdbff;
            let low = 0xdc00 <= u <= 0xdfff;
            let pair = high && units.len() > 1 && 0xdc00 <= units[1] <= 0xdfff;
            let t = netevent::utf16_text(units);
            &&& t.len() > 0
            &&& !high && !low ==> t[0] as int == u && t.skip(1) == netevent::utf16_text(
                units.skip(1),
            )
            &&& pair ==> t[0] as int == 0x1_0000 + (u - 0xd800) * 0x400 + (units[1] - 0xdc00)
                && t.skip(1) == netevent::utf16_text(units.skip(2))
            &&& (high || low) && !pair ==> t[0] == '\u{fffd}' && t.skip(1) == netevent::utf16_text(
                units.skip(1),
            )
        }),
        netevent::utf16_text(Seq::<u16>::empty()).len() == 0,
{
    let t = netevent::utf16_text(units);
    if units.len() > 1 {
        assert(t.skip(1) =~= netevent::utf16_text(units.skip(2)) || t.skip(1)
            =~= netevent::utf16_text(units.skip(1)));
    } else {
        assert(t.skip(1) =~= netevent::utf16_text(units.skip(1)));
    }
}

/// A package is read exactly if its flag is set and it is there. An account is
/// named by its domain and its name, by its name alone where the domain is blank,
/// and not at all where the name is.
pub proof fn packages_and_accounts(
    record: NetEventRecord,
    reads: bool,
    name: &str,
    domain: &str,
    r: Option<String>,
)
    requires
        call_ensures(reads_package, (&record,), reads),
        call_ensures(compose_account_name, (name, domain), r),
    ensures
        reads <==> flagged(record.flags, 1024) && record.has_package,
        apps::trimmed(name@).len() == 0 <==> r is None,
        apps::trimmed(name@).len() > 0 && apps::trimmed(domain@).len() == 0 ==> r->0@ == name@,
        apps::trimmed(name@).len() > 0 && apps::trimmed(domain@).len() > 0 ==> r->0@ == domain@
            + seq!['\\'] + name@,
{
}

/// Names that the system gives as code units end at the first zero unit.
pub proof fn names_end_at_the_first_zero(units: Vec<u16>, n: int, r: String)
    requires
        call_ensures(text_up_to_nul, (&units,), r),
        0 <= n <= units@.len(),
        forall|i: int| 0 <= i < n ==> #[trigger] units@[i] != 0,
        n < units@.len() ==> units@[n] == 0,
    ensures
        r@ == netevent::utf16_text(units@.take(n)),
{
    lemma_up_to_nul(units@);
    let t = netevent::up_to_nul(units@);
    if t.len() < n {
        assert(units@[t.len() as int] == 0);
    }
    if t.len() > n {
        assert(t[n] != 0);
    }
    assert(t =~= units@.take(n));
}

/// An account is named by what its name and domain read as.
pub proof fn accounts_are_read_and_named(
    name: Vec<u16>,
    domain: Vec<u16>,
    r: Option<String>,
    read_name: String,
    read_domain: String,
    n: &str,
    d: &str,
    composed: Option<String>,
)
    requires
        call_ensures(account_name, (&name, &domain), r),
        call_ensures(text_up_to_nul, (&name,), read_name),
        call_ensures(text_up_to_nul, (&domain,), read_domain),
        n@ == read_name@,
        d@ == read_domain@,
        call_ensures(compose_account_name, (n, d), composed),
    ensures
        text::text_option(r) == text::text_option(composed),
{
}

/// A new table has nothing under any handle, and there are handles left until the
/// last one.
pub proof fn new_tables_are_empty(t: HandleTable, handle: u64, u: HandleTable, room: bool)
    requires
        call_ensures(HandleTable::new, (), t),
        call_ensures(HandleTable::has_room, (&u,), room),
    ensures
        t@.wf(),
        !t@.filters.contains_key(handle),
        t@.next_handle == 1,
        room <==> u@.next_handle != u64::MAX,
{
}

/// What went in is handed over under its ids.
pub proof fn installed_ids_are_handed_over(x: Installation, r: Vec<u64>)
    requires
        call_ensures(Installation::into_ids, (x,), r),
    ensures
        r@ == x@.ids,
{
}

} // verus!
