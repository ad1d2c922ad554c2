//! Simulator backend. Generates realistic inbound traffic with periodic flood
//! and port-scan bursts, so that the full detection pipeline can run on any
//! platform. Blocking and unblocking only hand out handles.

use vstd::prelude::*;
use vstd::string::*;

use crate::ip::{IpAddr, Ipv4Addr};
use crate::wfp;
use crate::wfp::{AppProtocol, Firewall, RawConn, RawModel, RemoteMatch, Request};

verus! {

pub struct SimFirewall {
    next_handle: u64,
    asked: Ghost<Seq<Request>>,
}

/// The state of the simulated packet filter: the handle that is given out next,
/// and what was asked of it.
#[verifier::ext_equal]
pub struct FilterModel {
    pub next_handle: u64,
    pub asked: Seq<Request>,
}

impl View for SimFirewall {
    type V = FilterModel;

    closed spec fn view(&self) -> FilterModel {
        FilterModel { next_handle: self.next_handle, asked: self.asked@ }
    }
}

/// Handles count up, and start over after the last one.
pub open spec fn handle_after(handle: u64) -> u64 {
    if handle == u64::MAX {
        0
    } else {
        (handle + 1) as u64
    }
}

impl FilterModel {
    /// The state after a block was installed.
    pub open spec fn installed(self, request: Request) -> FilterModel {
        FilterModel {
            next_handle: handle_after(self.next_handle),
            asked: self.asked.push(request),
        }
    }
}

impl SimFirewall {
    pub fn start() -> (r: Result<Self, String>)
        ensures
            r matches Ok(f) && f@ == (FilterModel { next_handle: 1, asked: Seq::empty() }),
    {
        Ok(SimFirewall { next_handle: 1, asked: Ghost(Seq::empty()) })
    }

    fn hand_out(&mut self) -> (r: u64)
        ensures
            r == old(self)@.next_handle,
            final(self)@ == (FilterModel { next_handle: handle_after(r), ..old(self)@ }),
    {
        let handle: u64 = self.next_handle;
        self.next_handle = handle.wrapping_add(1);
        handle
    }
}

impl Firewall for SimFirewall {
    closed spec fn asked(&self) -> Seq<Request> {
        self@.asked
    }

    fn block_ip(&mut self, ip: IpAddr) -> (r: Result<u64, String>)
        ensures
            r == Ok::<u64, String>(old(self)@.next_handle),
            final(self)@ == old(self)@.installed(Request::BlockIp { ip, reply: wfp::reply_of(r) }),
    {
        let handle: u64 = self.hand_out();
        proof {
            self.asked@ = self.asked@.push(Request::BlockIp { ip, reply: Ok(handle) });
        }
        Ok(handle)
    }

    fn block_app(&mut self, app_id: &Vec<u8>, protocol: AppProtocol) -> (r: Result<u64, String>)
        ensures
            r == Ok::<u64, String>(old(self)@.next_handle),
            final(self)@ == old(self)@.installed(
                Request::BlockApp { app_id: app_id@, protocol, reply: wfp::reply_of(r) },
            ),
    {
        let handle: u64 = self.hand_out();
        proof {
            self.asked@ = self.asked@.push(
                Request::BlockApp { app_id: app_id@, protocol, reply: Ok(handle) },
            );
        }
        Ok(handle)
    }

    fn block_app_target(
        &mut self,
        app_id: &Vec<u8>,
        protocol: AppProtocol,
        remote: Option<RemoteMatch>,
        remote_port: Option<u16>,
    ) -> (r: Result<u64, String>)
        ensures
            r == Ok::<u64, String>(old(self)@.next_handle),
            final(self)@ == old(self)@.installed(
                Request::BlockAppTarget {
                    app_id: app_id@,
                    protocol,
                    remote,
                    remote_port,
                    reply: wfp::reply_of(r),
                },
            ),
    {
        let handle: u64 = self.hand_out();
        proof {
            self.asked@ = self.asked@.push(
                Request::BlockAppTarget {
                    app_id: app_id@,
                    protocol,
                    remote,
                    remote_port,
                    reply: Ok(handle),
                },
            );
        }
        Ok(handle)
    }

    fn unblock(&mut self, handle: u64) -> (r: Result<(), String>)
        ensures
            r is Ok,
            final(self)@ == (FilterModel {
                asked: old(self)@.asked.push(Request::Unblock { handle }),
                ..old(self)@
            }),
    {
        proof {
            self.asked@ = self.asked@.push(Request::Unblock { handle });
        }
        Ok(())
    }

    fn backend(&self) -> (r: &'static str)
        ensures
            r@ == "Simulator"@,
    {
        "Simulator"
    }
}

/// A tiny pseudo-random number generator.
pub struct Rng {
    state: u64,
}

/// One step of the generator.
pub open spec fn scrambled(x: u64) -> u64 {
    let a = x ^ (x << 13u64);
    let b = a ^ (a >> 7u64);
    b ^ (b << 17u64)
}

/// The state after `k` steps.
pub open spec fn state_after(x: u64, k: nat) -> u64
    decreases k,
{
    if k == 0 {
        x
    } else {
        scrambled(state_after(x, (k - 1) as nat))
    }
}

/// The `k`-th number below `n` that is drawn from a state; 0 where `n` is 0.
pub open spec fn drawn(x: u64, k: nat, n: u64) -> u64 {
    state_after(x, k) % (if n == 0 {
        1
    } else {
        n
    })
}

impl View for Rng {
    type V = u64;

    closed spec fn view(&self) -> u64 {
        self.state
    }
}

impl Rng {
    /// A generator that starts from the given state.
    pub fn new(state: u64) -> (r: Self)
        ensures
            r@ == state,
    {
        Rng { state }
    }

    pub fn next(&mut self) -> (r: u64)
        ensures
            r == scrambled(old(self)@),
            final(self)@ == r,
    {
        let a: u64 = self.state ^ (self.state << 13u64);
        let b: u64 = a ^ (a >> 7u64);
        self.state = b ^ (b << 17u64);
        self.state
    }

    /// A number below `n`; 0 where `n` is 0.
    pub fn upto(&mut self, n: u64) -> (r: u64)
        ensures
            r == drawn(old(self)@, 1, n),
            final(self)@ == state_after(old(self)@, 1),
            n > 0 ==> r < n,
            n == 0 ==> r == 0,
    {
        proof {
            reveal_with_fuel(state_after, 2);
        }
        let x: u64 = self.next();
        x % (if n == 0 {
            1
        } else {
            n
        })
    }
}

proof fn lemma_state_after(x: u64, a: nat, b: nat)
    ensures
        state_after(state_after(x, a), b) == state_after(x, a + b),
    decreases b,
{
    if b > 0 {
        lemma_state_after(x, a, (b - 1) as nat);
    }
}

/// The generator does not get stuck at zero: from a state that is not zero it
/// never reaches zero.
pub proof fn generator_never_dies(x: u64, k: nat)
    requires
        x != 0,
    ensures
        state_after(x, k) != 0,
    decreases k,
{
    if k > 0 {
        generator_never_dies(x, (k - 1) as nat);
        let y = state_after(x, (k - 1) as nat);
        let a = y ^ (y << 13u64);
        let b = a ^ (a >> 7u64);
        assert(y != 0 ==> y ^ (y << 13u64) != 0) by (bit_vector);
        assert(a != 0 ==> a ^ (a >> 7u64) != 0) by (bit_vector);
        assert(b != 0 ==> b ^ (b << 17u64) != 0) by (bit_vector);
    }
}

/// The address that four draws give, after `k` others.
pub open spec fn drawn_ip(x: u64, k: nat) -> IpAddr {
    IpAddr::V4(
        Ipv4Addr {
            bits: ((185 + drawn(x, k + 1, 3)) * 0x100_0000 + drawn(x, k + 2, 255) * 0x1_0000
                + drawn(x, k + 3, 255) * 0x100 + (1 + drawn(x, k + 4, 254))) as u32,
        },
    )
}

fn rip(r: &mut Rng) -> (ip: IpAddr)
    ensures
        ip == drawn_ip(old(r)@, 0),
        final(r)@ == state_after(old(r)@, 4),
{
    proof {
        lemma_state_after(r@, 1, 1);
        lemma_state_after(r@, 2, 1);
        lemma_state_after(r@, 3, 1);
    }
    let a: u8 = r.upto(3) as u8;
    let b: u8 = r.upto(255) as u8;
    let c: u8 = r.upto(255) as u8;
    let d: u8 = r.upto(254) as u8;
    IpAddr::V4(Ipv4Addr::new(185 + a, b, c, 1 + d))
}

/// The well-known ports that benign traffic uses.
pub open spec fn known_port(i: int) -> u16 {
    if i == 0 {
        80
    } else if i == 1 {
        443
    } else if i == 2 {
        22
    } else if i == 3 {
        3389
    } else {
        53
    }
}

/// The benign connection that nine draws give.
pub open spec fn benign(x: u64, t: u64) -> RawModel {
    RawModel {
        ts_ms: t,
        inbound: drawn(x, 1, 10) < 6,
        is_new: true,
        udp: drawn(x, 2, 10) < 3,
        remote_ip: drawn_ip(x, 2),
        remote_port: (1024 + drawn(x, 7, 60000)) as u16,
        local_port: known_port(drawn(x, 8, 5) as int),
        pid: (1000 + drawn(x, 9, 400)) as u32,
        app_id: None,
        app_path: None,
    }
}

fn benign_conn(r: &mut Rng, t: u64) -> (c: RawConn)
    ensures
        c@ == benign(old(r)@, t),
        final(r)@ == state_after(old(r)@, 9),
{
    let ghost x = r@;
    proof {
        lemma_state_after(x, 1, 1);
        lemma_state_after(x, 2, 4);
        lemma_state_after(x, 6, 1);
        lemma_state_after(x, 7, 1);
        lemma_state_after(x, 8, 1);
        lemma_state_after(x, 2, 1);
        lemma_state_after(x, 2, 2);
        lemma_state_after(x, 2, 3);
    }
    let inbound: bool = r.upto(10) < 6;
    let udp: bool = r.upto(10) < 3;
    let remote_ip: IpAddr = rip(r);
    let remote_port: u16 = 1024 + r.upto(60000) as u16;
    let local_port: u16 = match r.upto(5) {
        0 => 80,
        1 => 443,
        2 => 22,
        3 => 3389,
        _ => 53,
    };
    let pid: u32 = 1000 + r.upto(400) as u32;
    RawConn {
        ts_ms: t,
        inbound,
        is_new: true,
        udp,
        remote_ip,
        remote_port,
        local_port,
        pid,
        app_id: None,
        app_path: None,
    }
}

/// An attack that is going on.
#[derive(Debug, Clone, Copy, PartialEq, Eq, Structural)]
pub enum Attack {
    Flood { ip: IpAddr, left: u32 },
    Scan { ip: IpAddr, left: u32, port: u16 },
}

impl Attack {
    /// How many rounds are left.
    pub open spec fn rounds(self) -> u32 {
        match self {
            Attack::Flood { left, .. } => left,
            Attack::Scan { left, .. } => left,
        }
    }

    pub open spec fn source(self) -> IpAddr {
        match self {
            Attack::Flood { ip, .. } => ip,
            Attack::Scan { ip, .. } => ip,
        }
    }

    pub open spec fn wf(self) -> bool {
        self.rounds() >= 1 && (self matches Attack::Scan { port, .. } ==> port >= 1)
    }
}

/// One connection of an attack.
pub open spec fn hostile(t: u64, ip: IpAddr, remote_port: u16, local_port: u16) -> RawModel {
    RawModel {
        ts_ms: t,
        inbound: true,
        is_new: true,
        udp: false,
        remote_ip: ip,
        remote_port,
        local_port,
        pid: 0,
        app_id: None,
        app_path: None,
    }
}

fn hostile_conn(t: u64, ip: IpAddr, remote_port: u16, local_port: u16) -> (c: RawConn)
    ensures
        c@ == hostile(t, ip, remote_port, local_port),
{
    RawConn {
        ts_ms: t,
        inbound: true,
        is_new: true,
        udp: false,
        remote_ip: ip,
        remote_port,
        local_port,
        pid: 0,
        app_id: None,
        app_path: None,
    }
}

/// The port that a scan probes `j` probes after `port`; it runs through all
/// ports but 0 and starts over.
pub open spec fn scan_port(port: u16, j: int) -> u16 {
    ((port - 1 + j) % 65535 + 1) as u16
}

/// The traffic simulator.
pub struct Simulator {
    rng: Rng,
    attack: Option<Attack>,
}

#[verifier::ext_equal]
pub struct SimModel {
    pub rng: u64,
    pub attack: Option<Attack>,
}

impl View for Simulator {
    type V = SimModel;

    closed spec fn view(&self) -> SimModel {
        SimModel { rng: self.rng@, attack: self.attack }
    }
}

impl SimModel {
    pub open spec fn wf(self) -> bool {
        self.attack matches Some(a) ==> a.wf()
    }

    /// How many benign connections the round has.
    pub open spec fn benign_count(self) -> int {
        8 + drawn(self.rng, 1, 10)
    }

    pub open spec fn benign_traffic(self, t: u64) -> Seq<RawModel> {
        Seq::new(
            self.benign_count() as nat,
            |i: int| benign(state_after(self.rng, (1 + 9 * i) as nat), t),
        )
    }

    /// After the benign connections an attack may start, where none goes on.
    pub open spec fn launched(self) -> SimModel {
        let x = state_after(self.rng, (1 + 9 * self.benign_count()) as nat);
        match self.attack {
            Some(_) => SimModel { rng: x, ..self },
            None => if drawn(x, 1, 100) < 8 {
                SimModel {
                    rng: state_after(x, 7),
                    attack: Some(
                        if drawn(x, 6, 2) == 0 {
                            Attack::Flood {
                                ip: drawn_ip(x, 1),
                                left: (4 + drawn(x, 7, 6)) as u32,
                            }
                        } else {
                            Attack::Scan {
                                ip: drawn_ip(x, 1),
                                left: (4 + drawn(x, 7, 4)) as u32,
                                port: 1,
                            }
                        },
                    ),
                }
            } else {
                SimModel { rng: state_after(x, 1), attack: None }
            },
        }
    }

    /// How many connections the attack makes in the round.
    pub open spec fn hostile_count(self) -> int {
        match self.attack {
            Some(Attack::Flood { .. }) => 80 + drawn(self.rng, 1, 60),
            Some(Attack::Scan { .. }) => 25,
            None => 0,
        }
    }

    pub open spec fn hostile_traffic(self, t: u64) -> Seq<RawModel> {
        Seq::new(
            self.hostile_count() as nat,
            |i: int|
                match self.attack {
                    Some(Attack::Flood { ip, .. }) => hostile(
                        t,
                        ip,
                        (40000 + drawn(self.rng, (2 + i) as nat, 20000)) as u16,
                        443,
                    ),
                    Some(Attack::Scan { ip, port, .. }) => hostile(
                        t,
                        ip,
                        44444,
                        scan_port(port, i),
                    ),
                    None => hostile(t, IpAddr::V4(Ipv4Addr { bits: 0 }), 0, 0),
                },
        )
    }

    /// After a round of the attack, one round fewer is left, or it is over.
    pub open spec fn wound_down(self) -> SimModel {
        match self.attack {
            Some(Attack::Flood { ip, left }) => SimModel {
                rng: state_after(self.rng, (1 + self.hostile_count()) as nat),
                attack: if left == 1 {
                    None
                } else {
                    Some(Attack::Flood { ip, left: (left - 1) as u32 })
                },
            },
            Some(Attack::Scan { ip, left, port }) => SimModel {
                rng: self.rng,
                attack: if left == 1 {
                    None
                } else {
                    Some(Attack::Scan { ip, left: (left - 1) as u32, port: scan_port(port, 25) })
                },
            },
            None => self,
        }
    }

    /// The observations of one round at time `t`.
    pub open spec fn traffic(self, t: u64) -> Seq<RawModel> {
        self.benign_traffic(t) + self.launched().hostile_traffic(t)
    }

    /// The state after one round.
    pub open spec fn stepped(self) -> SimModel {
        self.launched().wound_down()
    }
}

/// A list of observations.
pub open spec fn conns_view(c: Seq<RawConn>) -> Seq<RawModel> {
    c.map_values(|c: RawConn| c@)
}

proof fn lemma_scan_port(port: u16, i: int)
    requires
        port >= 1,
        i >= 0,
    ensures
        1 <= scan_port(port, i),
        scan_port(port, 0) == port,
        scan_port(port, i + 1) == if scan_port(port, i) == 65535 {
            1
        } else {
            (scan_port(port, i) + 1) as u16
        },
{
}

impl Simulator {
    /// A simulator seeded with the time.
    pub fn new(now: u64) -> (r: Self)
        ensures
            r@ == (SimModel { rng: 0x9E3779B97F4A7C15u64 ^ now, attack: None }),
            r@.wf(),
    {
        Simulator { rng: Rng::new(0x9E3779B97F4A7C15u64 ^ now), attack: None }
    }

    /// One round of traffic at time `t`.
    pub fn step(&mut self, t: u64) -> (r: Vec<RawConn>)
        requires
            old(self)@.wf(),
        ensures
            conns_view(r@) == old(self)@.traffic(t),
            final(self)@ == old(self)@.stepped(),
            final(self)@.wf(),
    {
        let mut out: Vec<RawConn> = Vec::new();
        self.push_benign(t, &mut out);
        self.launch();
        self.push_hostile(t, &mut out);
        proof {
            assert(conns_view(out@) =~= old(self)@.traffic(t));
        }
        out
    }

    fn push_benign(&mut self, t: u64, out: &mut Vec<RawConn>)
        requires
            old(out)@.len() == 0,
        ensures
            conns_view(final(out)@) == old(self)@.benign_traffic(t),
            final(self)@ == (SimModel {
                rng: state_after(old(self)@.rng, (1 + 9 * old(self)@.benign_count()) as nat),
                ..old(self)@
            }),
    {
        let ghost m = self@;
        let n: u32 = 8 + self.rng.upto(10) as u32;
        let mut i: u32 = 0;
        while i < n
            invariant
                i <= n,
                n == m.benign_count(),
                m == old(self)@,
                self@ == (SimModel { rng: state_after(m.rng, (1 + 9 * i) as nat), ..m }),
                out@.len() == i,
                forall|j: int|
                    0 <= j < i ==> (#[trigger] out@[j])@ == benign(
                        state_after(m.rng, (1 + 9 * j) as nat),
                        t,
                    ),
            decreases n - i,
        {
            proof {
                lemma_state_after(m.rng, (1 + 9 * i) as nat, 9);
            }
            let c: RawConn = benign_conn(&mut self.rng, t);
            out.push(c);
            i = i + 1;
        }
        proof {
            assert(conns_view(out@) =~= m.benign_traffic(t));
        }
    }

    fn launch(&mut self)
        requires
            old(self)@.wf(),
        ensures
            forall|m: SimModel|
                #![trigger m.launched()]
                old(self)@ == (SimModel {
                    rng: state_after(m.rng, (1 + 9 * m.benign_count()) as nat),
                    ..m
                }) ==> final(self)@ == m.launched(),
            final(self)@.wf(),
    {
        let ghost x = self.rng@;
        proof {
            lemma_state_after(x, 1, 4);
            lemma_state_after(x, 1, 1);
            lemma_state_after(x, 1, 2);
            lemma_state_after(x, 1, 3);
            lemma_state_after(x, 5, 1);
            lemma_state_after(x, 6, 1);
        }
        if self.attack.is_none() && self.rng.upto(100) < 8 {
            let ip: IpAddr = rip(&mut self.rng);
            let flood: bool = self.rng.upto(2) == 0;
            if flood {
                let left: u32 = 4 + self.rng.upto(6) as u32;
                self.attack = Some(Attack::Flood { ip, left });
            } else {
                let left: u32 = 4 + self.rng.upto(4) as u32;
                self.attack = Some(Attack::Scan { ip, left, port: 1 });
            }
        }
    }

    fn push_hostile(&mut self, t: u64, out: &mut Vec<RawConn>)
        requires
            old(self)@.wf(),
        ensures
            conns_view(final(out)@) == conns_view(old(out)@) + old(self)@.hostile_traffic(t),
            final(self)@ == old(self)@.wound_down(),
            final(self)@.wf(),
    {
        let ghost m = self@;
        let ghost before = out@;
        match self.attack {
            Some(Attack::Flood { ip, left }) => {
                let n: u64 = 80 + self.rng.upto(60);
                let mut i: u64 = 0;
                while i < n
                    invariant
                        i <= n,
                        n == m.hostile_count(),
                        m.attack == Some(Attack::Flood { ip, left }),
                        self@ == (SimModel { rng: state_after(m.rng, (1 + i) as nat), ..m }),
                        out@.len() == before.len() + i,
                        forall|j: int| 0 <= j < before.len() ==> out@[j] == before[j],
                        forall|j: int|
                            0 <= j < i ==> (#[trigger] out@[before.len() + j])@
                                == m.hostile_traffic(t)[j],
                    decreases n - i,
                {
                    proof {
                        lemma_state_after(m.rng, (1 + i) as nat, 1);
                    }
                    let port: u16 = 40000 + self.rng.upto(20000) as u16;
                    out.push(hostile_conn(t, ip, port, 443));
                    i = i + 1;
                }
                self.attack = if left == 1 {
                    None
                } else {
                    Some(Attack::Flood { ip, left: left - 1 })
                };
            },
            Some(Attack::Scan { ip, left, port }) => {
                let mut p: u16 = port;
                let mut i: u64 = 0;
                while i < 25
                    invariant
                        i <= 25,
                        port >= 1,
                        m.attack == Some(Attack::Scan { ip, left, port }),
                        p == scan_port(port, i as int),
                        self@ == m,
                        out@.len() == before.len() + i,
                        forall|j: int| 0 <= j < before.len() ==> out@[j] == before[j],
                        forall|j: int|
                            0 <= j < i ==> (#[trigger] out@[before.len() + j])@
                                == m.hostile_traffic(t)[j],
                    decreases 25 - i,
                {
                    out.push(hostile_conn(t, ip, 44444, p));
                    proof {
                        lemma_scan_port(port, i as int);
                    }
                    p = if p == 65535 {
                        1
                    } else {
                        p + 1
                    };
                    i = i + 1;
                }
                proof {
                    lemma_scan_port(port, 25);
                }
                self.attack = if left == 1 {
                    None
                } else {
                    Some(Attack::Scan { ip, left: left - 1, port: p })
                };
            },
            None => {},
        }
        proof {
            assert(conns_view(out@) =~= conns_view(before) + m.hostile_traffic(t)) by {
                let a = conns_view(out@);
                let b = conns_view(before) + m.hostile_traffic(t);
                assert forall|k: int| 0 <= k < a.len() implies a[k] == b[k] by {
                    if k >= before.len() {
                        let j = k - before.len();
                        assert(out@[before.len() + j]@ == m.hostile_traffic(t)[j]);
                    }
                }
            }
        }
    }
}

/// The state after `n` rounds.
pub open spec fn after_rounds(m: SimModel, n: nat) -> SimModel
    decreases n,
{
    if n == 0 {
        m
    } else {
        after_rounds(m, (n - 1) as nat).stepped()
    }
}

/// An attack keeps its source, loses one round with every round of traffic, and
/// is over when none is left.
pub proof fn attack_runs_down(m: SimModel)
    requires
        m.wf(),
        m.attack is Some,
    ensures
        m.attack->0.rounds() == 1 ==> m.stepped().attack is None,
        m.attack->0.rounds() > 1 ==> {
            let next = m.stepped().attack;
            &&& next is Some
            &&& next->0.rounds() == m.attack->0.rounds() - 1
            &&& next->0.source() == m.attack->0.source()
            &&& next->0.wf()
        },
{
    if let Some(Attack::Scan { port, .. }) = m.attack {
        lemma_scan_port(port, 25);
    }
}

/// Every attack ends: after as many rounds as it has left it is over, whatever
/// the generator draws.
pub proof fn every_attack_ends(m: SimModel, n: nat)
    requires
        m.wf(),
        m.attack is Some,
        n <= m.attack->0.rounds(),
    ensures
        n < m.attack->0.rounds() ==> after_rounds(m, n).attack is Some && after_rounds(
            m,
            n,
        ).attack->0.rounds() == m.attack->0.rounds() - n && after_rounds(m, n).wf(),
        n == m.attack->0.rounds() ==> after_rounds(m, n).attack is None,
    decreases n,
{
    if n > 0 {
        every_attack_ends(m, (n - 1) as nat);
        attack_runs_down(after_rounds(m, (n - 1) as nat));
    }
}

/// All connections of an attack are new inbound connections from its source.
pub proof fn attack_traffic_is_inbound(m: SimModel, t: u64, i: int)
    requires
        m.attack is Some,
        0 <= i < m.hostile_count(),
    ensures
        ({
            let c = m.hostile_traffic(t)[i];
            c.inbound && c.is_new && c.ts_ms == t && c.remote_ip == m.attack->0.source()
        }),
{
}

} // verus!
