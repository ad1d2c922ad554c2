//! Installing filters one by one with rollback, and the table of what was
//! installed under which handle.

use std::collections::HashMap;

use vstd::prelude::*;
use vstd::string::*;

use crate::ip::IpAddr;
use crate::text;
use crate::wfp::filter;
use crate::wfp::filter::{
    address_block_filter, identity_block_filter, FilterModel, FilterSpec, Identity, IdentityModel,
    Layer,
};
use crate::wfp::{AppProtocol, RemoteMatch};

verus! {

/// What a group of filters is for.
#[derive(Debug, Clone, Copy, PartialEq, Eq, Structural)]
pub enum Purpose {
    Address,
    Application,
}

/// A group of filters on its way into the packet filter: those up to `ids.len()`
/// are in, under these ids.
pub struct Installation {
    purpose: Purpose,
    filters: Vec<FilterSpec>,
    ids: Vec<u64>,
}

#[verifier::ext_equal]
pub struct InstallationModel {
    pub purpose: Purpose,
    pub filters: Seq<FilterModel>,
    pub ids: Seq<u64>,
}

impl InstallationModel {
    pub open spec fn wf(self) -> bool {
        self.ids.len() <= self.filters.len()
    }

    pub open spec fn complete(self) -> bool {
        self.ids.len() == self.filters.len()
    }
}

impl View for Installation {
    type V = InstallationModel;

    closed spec fn view(&self) -> InstallationModel {
        InstallationModel {
            purpose: self.purpose,
            filters: filter::filters_view(self.filters@),
            ids: self.ids@,
        }
    }
}

/// A failed installation: the filters to take out again, and what to report.
#[derive(Debug, PartialEq, Eq)]
pub struct Rollback {
    pub delete: Vec<u64>,
    pub error: String,
}

/// The report of a filter that could not be added.
pub open spec fn add_error(purpose: Purpose, status: u32) -> Seq<char> {
    let call = match purpose {
        Purpose::Address => "FwpmFilterAdd0 failed: "@,
        Purpose::Application => "FwpmFilterAdd0(app) failed: "@,
    };
    call + text::decimal(status as nat)
}

/// The layers at which an address is blocked: outbound first, then inbound.
pub open spec fn address_layers(ip: IpAddr) -> (Layer, Layer) {
    match ip {
        IpAddr::V4(_) => (Layer::ConnectV4, Layer::AcceptV4),
        IpAddr::V6(_) => (Layer::ConnectV6, Layer::AcceptV6),
    }
}

/// The filters of a block on an application or package, one for each outbound
/// layer that the target occurs at.
pub open spec fn identity_blocks(
    identity: IdentityModel,
    protocol: AppProtocol,
    remote: Option<RemoteMatch>,
    port: Option<u16>,
) -> Seq<FilterModel> {
    let v4 = filter::identity_block(identity, Layer::ConnectV4, protocol, remote, port);
    let v6 = filter::identity_block(identity, Layer::ConnectV6, protocol, remote, port);
    if filter::matches_layer(remote, Layer::ConnectV4) && filter::matches_layer(
        remote,
        Layer::ConnectV6,
    ) {
        seq![v4, v6]
    } else if filter::matches_layer(remote, Layer::ConnectV4) {
        seq![v4]
    } else {
        seq![v6]
    }
}

impl Installation {
    /// The block of a remote address: new outbound connections to it, and new
    /// inbound connections from it.
    pub fn block_ip(ip: IpAddr) -> (r: Self)
        ensures
            r@ == (InstallationModel {
                purpose: Purpose::Address,
                filters: seq![
                    filter::address_block(ip, address_layers(ip).0),
                    filter::address_block(ip, address_layers(ip).1),
                ],
                ids: Seq::empty(),
            }),
            r@.wf(),
    {
        let (connect, accept) = match ip {
            IpAddr::V4(_) => (Layer::ConnectV4, Layer::AcceptV4),
            IpAddr::V6(_) => (Layer::ConnectV6, Layer::AcceptV6),
        };
        let mut filters: Vec<FilterSpec> = Vec::new();
        filters.push(address_block_filter(ip, connect));
        filters.push(address_block_filter(ip, accept));
        let r = Installation { purpose: Purpose::Address, filters, ids: Vec::new() };
        proof {
            assert(r@.filters =~= seq![
                filter::address_block(ip, address_layers(ip).0),
                filter::address_block(ip, address_layers(ip).1),
            ]);
        }
        r
    }

    /// The block of an application or package, to one target or to all.
    pub fn block_target(
        identity: &Identity,
        protocol: AppProtocol,
        remote: Option<RemoteMatch>,
        port: Option<u16>,
    ) -> (r: Result<Self, String>)
        ensures
            match r {
                Ok(i) => identity@.valid() && i@.wf() && i@ == (InstallationModel {
                    purpose: Purpose::Application,
                    filters: identity_blocks(identity@, protocol, remote, port),
                    ids: Seq::empty(),
                }),
                Err(e) => !identity@.valid() && e@ == "invalid WFP application/package identifier"@,
            },
    {
        let mut filters: Vec<FilterSpec> = Vec::new();
        match identity_block_filter(identity, Layer::ConnectV4, protocol, remote, port) {
            Err(e) => {
                return Err(e);
            },
            Ok(Some(f)) => filters.push(f),
            Ok(None) => {},
        }
        match identity_block_filter(identity, Layer::ConnectV6, protocol, remote, port) {
            Err(e) => {
                return Err(e);
            },
            Ok(Some(f)) => filters.push(f),
            Ok(None) => {},
        }
        let r = Installation { purpose: Purpose::Application, filters, ids: Vec::new() };
        proof {
            filter::target_has_an_outbound_layer(remote);
            assert(r@.filters =~= identity_blocks(identity@, protocol, remote, port));
        }
        Ok(r)
    }

    /// The filter to add next; none where all are in.
    pub fn next(&self) -> (r: Option<&FilterSpec>)
        requires
            self@.wf(),
        ensures
            match r {
                Some(f) => !self@.complete() && f@ == self@.filters[self@.ids.len() as int],
                None => self@.complete(),
            },
    {
        if self.ids.len() < self.filters.len() {
            Some(&self.filters[self.ids.len()])
        } else {
            None
        }
    }

    /// Takes note of what became of the filter that was to be added next. Where
    /// it failed, all that were added are to be taken out again.
    pub fn added(&mut self, status: u32, id: u64) -> (r: Result<(), Rollback>)
        requires
            old(self)@.wf(),
            !old(self)@.complete(),
        ensures
            final(self)@.wf(),
            match r {
                Ok(_) => status == 0 && final(self)@ == (InstallationModel {
                    ids: old(self)@.ids.push(id),
                    ..old(self)@
                }),
                Err(b) => status != 0 && final(self)@ == (InstallationModel {
                    ids: Seq::empty(),
                    ..old(self)@
                }) && b.delete@ == old(self)@.ids && b.error@ == add_error(
                    old(self)@.purpose,
                    status,
                ),
            },
    {
        if status == 0 {
            self.ids.push(id);
            return Ok(());
        }
        let mut error: String = match self.purpose {
            Purpose::Address => "FwpmFilterAdd0 failed: ".to_owned(),
            Purpose::Application => "FwpmFilterAdd0(app) failed: ".to_owned(),
        };
        text::push_decimal(&mut error, status as u64);
        let delete: Vec<u64> = self.ids.split_off(0);
        proof {
            assert(delete@ =~= old(self)@.ids);
            assert(self@.ids =~= Seq::<u64>::empty());
        }
        Err(Rollback { delete, error })
    }

    /// The ids of the filters that are in.
    pub fn into_ids(self) -> (r: Vec<u64>)
        ensures
            r@ == self@.ids,
    {
        self.ids
    }
}

/// What is installed under which handle. Handles count up and are not used
/// twice.
pub struct HandleTable {
    filters: HashMap<u64, Vec<u64>>,
    next_handle: u64,
}

#[verifier::ext_equal]
pub struct TableModel {
    pub filters: Map<u64, Seq<u64>>,
    pub next_handle: u64,
}

impl TableModel {
    /// Every handle in use was given out before.
    pub open spec fn wf(self) -> bool {
        forall|h: u64| #[trigger] self.filters.contains_key(h) ==> h < self.next_handle
    }
}

impl View for HandleTable {
    type V = TableModel;

    closed spec fn view(&self) -> TableModel {
        TableModel {
            filters: Map::new(
                |h: u64| self.filters@.contains_key(h),
                |h: u64| self.filters@[h]@,
            ),
            next_handle: self.next_handle,
        }
    }
}

impl HandleTable {
    pub fn new() -> (r: Self)
        ensures
            r@ == (TableModel { filters: Map::empty(), next_handle: 1 }),
            r@.wf(),
    {
        let r = HandleTable { filters: HashMap::new(), next_handle: 1 };
        proof {
            assert(r@.filters =~= Map::<u64, Seq<u64>>::empty());
        }
        r
    }

    /// Whether there is a handle left to give out.
    pub fn has_room(&self) -> (r: bool)
        ensures
            r == (self@.next_handle < u64::MAX),
    {
        self.next_handle < u64::MAX
    }

    /// Files the ids under a new handle.
    pub fn register(&mut self, ids: Vec<u64>) -> (r: u64)
        requires
            old(self)@.wf(),
            old(self)@.next_handle < u64::MAX,
        ensures
            r == old(self)@.next_handle,
            final(self)@ == (TableModel {
                filters: old(self)@.filters.insert(r, ids@),
                next_handle: (r + 1) as u64,
            }),
            final(self)@.wf(),
    {
        broadcast use vstd::std_specs::hash::group_hash_axioms;

        let handle: u64 = self.next_handle;
        self.next_handle = handle + 1;
        let _ = self.filters.insert(handle, ids);
        proof {
            assert(self@.filters =~= old(self)@.filters.insert(handle, ids@));
        }
        handle
    }

    /// Takes out what is filed under a handle.
    pub fn take(&mut self, handle: u64) -> (r: Option<Vec<u64>>)
        requires
            old(self)@.wf(),
        ensures
            final(self)@ == (TableModel {
                filters: old(self)@.filters.remove(handle),
                ..old(self)@
            }),
            final(self)@.wf(),
            match r {
                Some(ids) => old(self)@.filters.contains_key(handle) && ids@
                    == old(self)@.filters[handle],
                None => !old(self)@.filters.contains_key(handle),
            },
    {
        broadcast use vstd::std_specs::hash::group_hash_axioms;

        let r = self.filters.remove(&handle);
        proof {
            assert(self@.filters =~= old(self)@.filters.remove(handle));
        }
        r
    }
}

/// What a handle gives back is what was filed under it; other handles are not
/// touched, and a new handle was never in use.
pub proof fn handle_gives_back_what_was_filed(t: TableModel, ids: Seq<u64>, other: u64)
    requires
        t.wf(),
    ensures
        !t.filters.contains_key(t.next_handle),
        t.filters.insert(t.next_handle, ids)[t.next_handle] == ids,
        other != t.next_handle ==> t.filters.insert(t.next_handle, ids).contains_key(other)
            == t.filters.contains_key(other),
        t.filters.insert(t.next_handle, ids).remove(t.next_handle) == t.filters,
{
    assert(t.filters.insert(t.next_handle, ids).remove(t.next_handle) =~= t.filters);
}

/// The first status that is a failure.
pub open spec fn first_failure(statuses: Seq<u32>) -> Option<u32>
    decreases statuses.len(),
{
    if statuses.len() == 0 {
        None
    } else if statuses[0] != 0 {
        Some(statuses[0])
    } else {
        first_failure(statuses.drop_first())
    }
}

/// The outcome of deleting filters: all are tried, and the first failure is
/// reported.
pub fn deleted(statuses: &Vec<u32>) -> (r: Result<(), String>)
    ensures
        match r {
            Ok(_) => first_failure(statuses@) is None,
            Err(e) => first_failure(statuses@) is Some && e@ == "FwpmFilterDeleteById0 failed: "@
                + text::decimal(first_failure(statuses@)->0 as nat),
        },
{
    let mut i: usize = 0;
    proof {
        assert(statuses@.skip(0) =~= statuses@);
    }
    while i < statuses.len()
        invariant
            i <= statuses@.len(),
            first_failure(statuses@) == first_failure(statuses@.skip(i as int)),
        decreases statuses@.len() - i,
    {
        proof {
            assert(statuses@.skip(i as int).drop_first() =~= statuses@.skip(i + 1));
        }
        if statuses[i] != 0 {
            let mut e: String = "FwpmFilterDeleteById0 failed: ".to_owned();
            text::push_decimal(&mut e, statuses[i] as u64);
            return Err(e);
        }
        i = i + 1;
    }
    Ok(())
}

/// The outcome of opening the packet filter's engine.
pub fn engine_opened(status: u32) -> (r: Result<(), String>)
    ensures
        match r {
            Ok(_) => status == 0,
            Err(e) => status != 0 && e@ == "FwpmEngineOpen0 failed: "@ + text::decimal(
                status as nat,
            ),
        },
{
    if status == 0 {
        return Ok(());
    }
    let mut e: String = "FwpmEngineOpen0 failed: ".to_owned();
    text::push_decimal(&mut e, status as u64);
    Err(e)
}

/// The status of adding an object that is there already.
pub const ALREADY_EXISTS: u32 = 0x8032_0009;

/// The outcome of adding the sublayer of the desktop application. Adding it is
/// idempotent: that it is there already is no failure.
pub fn sublayer_added(status: u32) -> (r: Result<(), String>)
    ensures
        match r {
            Ok(_) => status == 0 || status == ALREADY_EXISTS,
            Err(e) => status != 0 && status != ALREADY_EXISTS && e@
                == "FwpmSubLayerAdd0 failed: "@ + text::decimal(status as nat)
                + ". Run m0untain as administrator."@,
        },
{
    if status == 0 || status == ALREADY_EXISTS {
        return Ok(());
    }
    let mut e: String = "FwpmSubLayerAdd0 failed: ".to_owned();
    text::push_decimal(&mut e, status as u64);
    e.append(". Run m0untain as administrator.");
    Err(e)
}

/// The outcome of subscribing to network events.
pub fn subscribed(status: u32) -> (r: Result<(), String>)
    ensures
        match r {
            Ok(_) => status == 0,
            Err(e) => status != 0 && e@ == "FwpmNetEventSubscribe4 failed: "@ + text::decimal(
                status as nat,
            ),
        },
{
    if status == 0 {
        return Ok(());
    }
    let mut e: String = "FwpmNetEventSubscribe4 failed: ".to_owned();
    text::push_decimal(&mut e, status as u64);
    Err(e)
}

} // verus!
