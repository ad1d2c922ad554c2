//! Rolling, bucketed time series that feeds the dashboard charts. Each bucket is
//! a fixed slice of time. The ring keeps the last `capacity` buckets, so that
//! the dashboard can draw a live scrolling window.

use vstd::prelude::*;

use crate::detect::{BlockReason, Verdict};
use crate::event::{Direction, NetEvent};
use crate::ip::IpAddr;
use crate::ipmap::IpSet;
use crate::window;

verus! {

/// A finished bucket as shown to the user (no internal sets).
#[derive(Debug, Clone, Copy, PartialEq, Eq, Structural)]
pub struct BucketOut {
    pub t_ms: u64,
    pub events: u32,
    pub inbound: u32,
    pub outbound: u32,
    pub passed: u32,
    pub blocked: u32,
    pub ratelimit_blocks: u32,
    pub scan_blocks: u32,
    pub unique_ips: u32,
}

impl BucketOut {
    pub open spec fn zero() -> Self {
        BucketOut {
            t_ms: 0,
            events: 0,
            inbound: 0,
            outbound: 0,
            passed: 0,
            blocked: 0,
            ratelimit_blocks: 0,
            scan_blocks: 0,
            unique_ips: 0,
        }
    }
}

impl Default for BucketOut {
    fn default() -> (r: Self)
        ensures
            r == Self::zero(),
    {
        BucketOut {
            t_ms: 0,
            events: 0,
            inbound: 0,
            outbound: 0,
            passed: 0,
            blocked: 0,
            ratelimit_blocks: 0,
            scan_blocks: 0,
            unique_ips: 0,
        }
    }
}

struct Bucket {
    t_ms: u64,
    events: u32,
    inbound: u32,
    outbound: u32,
    passed: u32,
    blocked: u32,
    ratelimit_blocks: u32,
    scan_blocks: u32,
    ips: IpSet,
}

/// The contents of a bucket.
#[verifier::ext_equal]
pub struct BucketModel {
    pub t_ms: u64,
    pub events: u32,
    pub inbound: u32,
    pub outbound: u32,
    pub passed: u32,
    pub blocked: u32,
    pub ratelimit_blocks: u32,
    pub scan_blocks: u32,
    pub ips: Set<IpAddr>,
}

impl BucketModel {
    /// A bucket with nothing in it.
    pub open spec fn empty(t_ms: u64) -> BucketModel {
        BucketModel {
            t_ms,
            events: 0,
            inbound: 0,
            outbound: 0,
            passed: 0,
            blocked: 0,
            ratelimit_blocks: 0,
            scan_blocks: 0,
            ips: Set::empty(),
        }
    }

    /// The counters add up: every event has one direction and one verdict.
    pub open spec fn balanced(self) -> bool {
        &&& self.inbound + self.outbound == self.events
        &&& self.passed + self.blocked == self.events
        &&& self.ratelimit_blocks + self.scan_blocks <= self.blocked
        &&& self.ips.finite()
        &&& self.ips.len() <= self.events
    }

    /// The bucket with one more event.
    pub open spec fn counting(self, ev: NetEvent, verdict: Verdict) -> BucketModel {
        BucketModel {
            t_ms: self.t_ms,
            events: (self.events + 1) as u32,
            inbound: if ev.direction == Direction::Inbound {
                (self.inbound + 1) as u32
            } else {
                self.inbound
            },
            outbound: if ev.direction == Direction::Outbound {
                (self.outbound + 1) as u32
            } else {
                self.outbound
            },
            passed: if verdict is Pass {
                (self.passed + 1) as u32
            } else {
                self.passed
            },
            blocked: if verdict is Block {
                (self.blocked + 1) as u32
            } else {
                self.blocked
            },
            ratelimit_blocks: if verdict is Block && verdict->reason == BlockReason::RateLimit {
                (self.ratelimit_blocks + 1) as u32
            } else {
                self.ratelimit_blocks
            },
            scan_blocks: if verdict is Block && verdict->reason == BlockReason::PortScan {
                (self.scan_blocks + 1) as u32
            } else {
                self.scan_blocks
            },
            ips: self.ips.insert(ev.remote_ip),
        }
    }

    /// The bucket as shown to the user.
    pub open spec fn shown(self) -> BucketOut {
        BucketOut {
            t_ms: self.t_ms,
            events: self.events,
            inbound: self.inbound,
            outbound: self.outbound,
            passed: self.passed,
            blocked: self.blocked,
            ratelimit_blocks: self.ratelimit_blocks,
            scan_blocks: self.scan_blocks,
            unique_ips: self.ips.len() as u32,
        }
    }
}

impl View for Bucket {
    type V = BucketModel;

    closed spec fn view(&self) -> BucketModel {
        BucketModel {
            t_ms: self.t_ms,
            events: self.events,
            inbound: self.inbound,
            outbound: self.outbound,
            passed: self.passed,
            blocked: self.blocked,
            ratelimit_blocks: self.ratelimit_blocks,
            scan_blocks: self.scan_blocks,
            ips: self.ips@,
        }
    }
}

impl Bucket {
    fn finalize(&self) -> (r: BucketOut)
        requires
            self@.balanced(),
        ensures
            r == self@.shown(),
    {
        BucketOut {
            t_ms: self.t_ms,
            events: self.events,
            inbound: self.inbound,
            outbound: self.outbound,
            passed: self.passed,
            blocked: self.blocked,
            ratelimit_blocks: self.ratelimit_blocks,
            scan_blocks: self.scan_blocks,
            unique_ips: window::low32_of(self.ips.len()),
        }
    }

    fn count(&mut self, ev: &NetEvent, verdict: &Verdict)
        requires
            old(self)@.balanced(),
            old(self)@.events < u32::MAX,
        ensures
            final(self)@ == old(self)@.counting(*ev, *verdict),
            final(self)@.balanced(),
    {
        self.events = self.events + 1;
        self.ips.insert(ev.remote_ip);
        match ev.direction {
            Direction::Inbound => {
                self.inbound = self.inbound + 1;
            },
            Direction::Outbound => {
                self.outbound = self.outbound + 1;
            },
        }
        match verdict {
            Verdict::Pass => {
                self.passed = self.passed + 1;
            },
            Verdict::Block { reason, .. } => {
                self.blocked = self.blocked + 1;
                match reason {
                    BlockReason::RateLimit => {
                        self.ratelimit_blocks = self.ratelimit_blocks + 1;
                    },
                    BlockReason::PortScan => {
                        self.scan_blocks = self.scan_blocks + 1;
                    },
                    _ => {},
                }
            },
        }
    }
}

pub struct Metrics {
    bucket_ms: u64,
    capacity: usize,
    buckets: Vec<Bucket>,
}

/// The state of the metrics: the buckets, oldest first.
#[verifier::ext_equal]
pub struct MetricsModel {
    pub bucket_ms: u64,
    pub capacity: usize,
    pub buckets: Seq<BucketModel>,
}

impl MetricsModel {
    /// Metrics that have counted nothing; zero counts as one.
    pub open spec fn fresh(bucket_ms: u64, capacity: usize) -> MetricsModel {
        MetricsModel {
            bucket_ms: if bucket_ms == 0 {
                1
            } else {
                bucket_ms
            },
            capacity: if capacity == 0 {
                1
            } else {
                capacity
            },
            buckets: Seq::empty(),
        }
    }

    pub open spec fn wf(self) -> bool {
        &&& self.bucket_ms >= 1
        &&& self.capacity >= 1
        &&& self.buckets.len() <= self.capacity
        &&& forall|i: int| 0 <= i < self.buckets.len() ==> (#[trigger] self.buckets[i]).balanced()
    }

    /// The start of the slice of time that `ts_ms` lies in.
    pub open spec fn slice_start(self, ts_ms: u64) -> u64 {
        (ts_ms - ts_ms % self.bucket_ms) as u64
    }

    /// Whether the newest bucket is the one for `ts_ms`.
    pub open spec fn is_current(self, ts_ms: u64) -> bool {
        self.buckets.len() > 0 && self.buckets.last().t_ms == self.slice_start(ts_ms)
    }

    /// The buckets, with the newest one the one for `ts_ms`: where it is not,
    /// an empty one is added, and the oldest goes when there are too many.
    pub open spec fn opened(self, ts_ms: u64) -> Seq<BucketModel> {
        if self.is_current(ts_ms) {
            self.buckets
        } else {
            let all = self.buckets.push(BucketModel::empty(self.slice_start(ts_ms)));
            if all.len() > self.capacity {
                all.drop_first()
            } else {
                all
            }
        }
    }

    /// Whether the bucket for `ts_ms` can count one more event.
    pub open spec fn has_room_spec(self, ts_ms: u64) -> bool {
        self.is_current(ts_ms) ==> self.buckets.last().events < u32::MAX
    }

    /// The state after an event.
    pub open spec fn after(self, ev: NetEvent, verdict: Verdict) -> MetricsModel {
        let open = self.opened(ev.ts_ms);
        MetricsModel {
            buckets: open.drop_last().push(open.last().counting(ev, verdict)),
            ..self
        }
    }
}

impl View for Metrics {
    type V = MetricsModel;

    closed spec fn view(&self) -> MetricsModel {
        MetricsModel {
            bucket_ms: self.bucket_ms,
            capacity: self.capacity,
            buckets: self.buckets@.map_values(|b: Bucket| b@),
        }
    }
}

impl Metrics {
    /// Buckets of `bucket_ms` milliseconds, the last `capacity` of them; zero
    /// counts as one.
    pub fn new(bucket_ms: u64, capacity: usize) -> (r: Self)
        ensures
            r@ == MetricsModel::fresh(bucket_ms, capacity),
            r@.wf(),
    {
        let r = Metrics {
            bucket_ms: if bucket_ms == 0 {
                1
            } else {
                bucket_ms
            },
            capacity: if capacity == 0 {
                1
            } else {
                capacity
            },
            buckets: Vec::new(),
        };
        proof {
            assert(r@.buckets =~= Seq::empty());
        }
        r
    }

    fn bucket_start(&self, ts_ms: u64) -> (r: u64)
        requires
            self@.wf(),
        ensures
            r == self@.slice_start(ts_ms),
    {
        proof {
            vstd::arithmetic::div_mod::lemma_mod_decreases(ts_ms as nat, self.bucket_ms as nat);
        }
        ts_ms - (ts_ms % self.bucket_ms)
    }

    /// Whether the bucket for `ts_ms` can count one more event.
    pub fn has_room(&self, ts_ms: u64) -> (r: bool)
        requires
            self@.wf(),
        ensures
            r == self@.has_room_spec(ts_ms),
    {
        let start: u64 = self.bucket_start(ts_ms);
        let n: usize = self.buckets.len();
        n == 0 || self.buckets[n - 1].t_ms != start || self.buckets[n - 1].events < u32::MAX
    }

    /// Makes the newest bucket the one for `ts_ms`.
    fn open(&mut self, ts_ms: u64)
        requires
            old(self)@.wf(),
        ensures
            final(self)@ == (MetricsModel { buckets: old(self)@.opened(ts_ms), ..old(self)@ }),
            final(self)@.wf(),
            final(self)@.is_current(ts_ms),
    {
        let start: u64 = self.bucket_start(ts_ms);
        let n: usize = self.buckets.len();
        if n == 0 || self.buckets[n - 1].t_ms != start {
            let fresh = Bucket {
                t_ms: start,
                events: 0,
                inbound: 0,
                outbound: 0,
                passed: 0,
                blocked: 0,
                ratelimit_blocks: 0,
                scan_blocks: 0,
                ips: IpSet::new(),
            };
            self.buckets.push(fresh);
            proof {
                assert(self@.buckets =~= old(self)@.buckets.push(BucketModel::empty(start)));
            }
            if self.buckets.len() > self.capacity {
                let _ = self.buckets.remove(0);
                proof {
                    assert(self@.buckets =~= old(self)@.buckets.push(
                        BucketModel::empty(start),
                    ).drop_first());
                }
            }
        }
    }

    /// Counts an event and its verdict in the bucket of its time.
    pub fn record(&mut self, ev: &NetEvent, verdict: &Verdict)
        requires
            old(self)@.wf(),
            old(self)@.has_room_spec(ev.ts_ms),
        ensures
            final(self)@ == old(self)@.after(*ev, *verdict),
            final(self)@.wf(),
    {
        self.open(ev.ts_ms);
        let ghost opened = self@;
        if let Some(taken) = self.buckets.pop() {
            let mut b: Bucket = taken;
            proof {
                assert(b@ == opened.buckets.last());
            }
            b.count(ev, verdict);
            self.buckets.push(b);
            proof {
                assert(self@.buckets =~= opened.buckets.drop_last().push(
                    opened.buckets.last().counting(*ev, *verdict),
                ));
            }
        }
    }

    /// Snapshot for the charts, oldest bucket first.
    pub fn series(&self) -> (r: Vec<BucketOut>)
        requires
            self@.wf(),
        ensures
            r@ == self@.buckets.map_values(|b: BucketModel| b.shown()),
    {
        let mut out: Vec<BucketOut> = Vec::new();
        let mut i: usize = 0;
        while i < self.buckets.len()
            invariant
                self@.wf(),
                i <= self.buckets@.len(),
                out@ == self@.buckets.take(i as int).map_values(|b: BucketModel| b.shown()),
            decreases self.buckets@.len() - i,
        {
            proof {
                assert(self.buckets@[i as int]@ == self@.buckets[i as int]);
            }
            out.push(self.buckets[i].finalize());
            i = i + 1;
            proof {
                assert(out@ =~= self@.buckets.take(i as int).map_values(
                    |b: BucketModel| b.shown(),
                ));
            }
        }
        proof {
            assert(self@.buckets.take(i as int) =~= self@.buckets);
        }
        out
    }

    /// The newest bucket.
    pub fn latest(&self) -> (r: Option<BucketOut>)
        requires
            self@.wf(),
        ensures
            r == if self@.buckets.len() > 0 {
                Some(self@.buckets.last().shown())
            } else {
                None
            },
    {
        let n: usize = self.buckets.len();
        if n == 0 {
            return None;
        }
        proof {
            assert(self.buckets@[n - 1]@ == self@.buckets[n - 1]);
        }
        Some(self.buckets[n - 1].finalize())
    }
}

/// The buckets stand in strictly increasing order of time.
pub open spec fn chronological(m: MetricsModel) -> bool {
    forall|i: int, j: int|
        0 <= i < j < m.buckets.len() ==> (#[trigger] m.buckets[i]).t_ms < (#[trigger] m.buckets[j]).t_ms
}

/// While time does not run backwards, the series is in strictly increasing order
/// of time, and the newest bucket is the one of the newest event.
pub proof fn series_is_chronological(m: MetricsModel, ev: NetEvent, verdict: Verdict)
    requires
        m.wf(),
        chronological(m),
        m.buckets.len() > 0 ==> m.buckets.last().t_ms <= ev.ts_ms,
        forall|i: int|
            0 <= i < m.buckets.len() ==> (#[trigger] m.buckets[i]).t_ms % m.bucket_ms == 0,
    ensures
        chronological(m.after(ev, verdict)),
        m.after(ev, verdict).buckets.last().t_ms == m.slice_start(ev.ts_ms),
        forall|i: int|
            0 <= i < m.after(ev, verdict).buckets.len() ==> (#[trigger] m.after(
                ev,
                verdict,
            ).buckets[i]).t_ms % m.bucket_ms == 0,
{
    let d = m.bucket_ms as int;
    let t = ev.ts_ms as int;
    let start = m.slice_start(ev.ts_ms);
    vstd::arithmetic::div_mod::lemma_fundamental_div_mod(t, d);
    vstd::arithmetic::div_mod::lemma_mod_bound(t, d);
    assert(0 <= t - t % d) by {
        vstd::arithmetic::div_mod::lemma_mod_decreases(t as nat, d as nat);
    }
    assert(start == d * (t / d));
    assert(start as int % d == 0) by {
        vstd::arithmetic::div_mod::lemma_mod_multiples_basic(t / d, d);
        vstd::arithmetic::mul::lemma_mul_is_commutative(d, t / d);
    }
    if m.buckets.len() > 0 {
        let last = m.buckets.last().t_ms as int;
        assert(last <= start) by {
            vstd::arithmetic::div_mod::lemma_fundamental_div_mod(last, d);
            assert(m.buckets[m.buckets.len() - 1].t_ms % m.bucket_ms == 0);
            assert(last == d * (last / d));
            vstd::arithmetic::div_mod::lemma_div_is_ordered(last, t, d);
            vstd::arithmetic::mul::lemma_mul_inequality(last / d, t / d, d);
            vstd::arithmetic::mul::lemma_mul_is_commutative(d, t / d);
            vstd::arithmetic::mul::lemma_mul_is_commutative(d, last / d);
        }
    }
    let open = m.opened(ev.ts_ms);
    assert forall|i: int, j: int| 0 <= i < j < open.len() implies (#[trigger] open[i]).t_ms < (
    #[trigger] open[j]).t_ms by {
        if !m.is_current(ev.ts_ms) {
            let all = m.buckets.push(BucketModel::empty(start));
            let k: int = if all.len() > m.capacity { 1 } else { 0 };
            assert(open[i] == all[i + k] && open[j] == all[j + k]);
            if j + k == m.buckets.len() {
                assert(m.buckets[i + k].t_ms <= m.buckets[m.buckets.len() - 1].t_ms);
            }
        }
    }
    assert forall|i: int| 0 <= i < open.len() implies (#[trigger] open[i]).t_ms % m.bucket_ms
        == 0 by {
        if !m.is_current(ev.ts_ms) {
            let all = m.buckets.push(BucketModel::empty(start));
            let k: int = if all.len() > m.capacity { 1 } else { 0 };
            assert(open[i] == all[i + k]);
        }
    }
    let n = m.after(ev, verdict).buckets;
    assert forall|i: int| 0 <= i < n.len() implies (#[trigger] n[i]).t_ms == open[i].t_ms by {
        if i == open.len() - 1 {
            assert(n[i] == open.last().counting(ev, verdict));
        }
    }
    assert forall|i: int, j: int| 0 <= i < j < n.len() implies (#[trigger] n[i]).t_ms < (
    #[trigger] n[j]).t_ms by {
        assert(open[i].t_ms < open[j].t_ms);
    }
}

/// An event with its verdict, as it is recorded.
pub type Record = (NetEvent, Verdict);

/// The metrics after a run of records.
pub open spec fn metrics_after(bucket_ms: u64, capacity: usize, records: Seq<Record>) -> MetricsModel
    decreases records.len(),
{
    if records.len() == 0 {
        MetricsModel::fresh(bucket_ms, capacity)
    } else {
        let (ev, verdict) = records.last();
        metrics_after(bucket_ms, capacity, records.drop_last()).after(ev, verdict)
    }
}

/// Time does not run backwards.
pub open spec fn forward(records: Seq<Record>) -> bool {
    forall|i: int, j: int|
        0 <= i <= j < records.len() ==> (#[trigger] records[i]).0.ts_ms <= (
        #[trigger] records[j]).0.ts_ms
}

/// The records of one slice of time.
pub open spec fn of_slice(m: MetricsModel, records: Seq<Record>, start: u64) -> Seq<Record> {
    records.filter(|r: Record| m.slice_start(r.0.ts_ms) == start)
}

/// The bucket that counts the records.
pub open spec fn tally(start: u64, records: Seq<Record>) -> BucketModel
    decreases records.len(),
{
    if records.len() == 0 {
        BucketModel::empty(start)
    } else {
        let (ev, verdict) = records.last();
        tally(start, records.drop_last()).counting(ev, verdict)
    }
}

/// Whether one of the buckets is the one of a slice.
pub open spec fn has_bucket(m: MetricsModel, start: u64) -> bool {
    exists|i: int| 0 <= i < m.buckets.len() && (#[trigger] m.buckets[i]).t_ms == start
}

proof fn lemma_slices_in_order(m: MetricsModel, a: u64, b: u64)
    requires
        m.bucket_ms >= 1,
        a <= b,
    ensures
        m.slice_start(a) <= m.slice_start(b),
{
    let d = m.bucket_ms as int;
    vstd::arithmetic::div_mod::lemma_fundamental_div_mod(a as int, d);
    vstd::arithmetic::div_mod::lemma_fundamental_div_mod(b as int, d);
    vstd::arithmetic::div_mod::lemma_mod_decreases(a as nat, d as nat);
    vstd::arithmetic::div_mod::lemma_mod_decreases(b as nat, d as nat);
    vstd::arithmetic::div_mod::lemma_div_is_ordered(a as int, b as int, d);
    vstd::arithmetic::mul::lemma_mul_inequality(a as int / d, b as int / d, d);
    vstd::arithmetic::mul::lemma_mul_is_commutative(d, a as int / d);
    vstd::arithmetic::mul::lemma_mul_is_commutative(d, b as int / d);
}

proof fn lemma_of_slice_push(m: MetricsModel, records: Seq<Record>, r: Record, start: u64)
    ensures
        of_slice(m, records.push(r), start) == if m.slice_start(r.0.ts_ms) == start {
            of_slice(m, records, start).push(r)
        } else {
            of_slice(m, records, start)
        },
{
    reveal(Seq::filter);
    assert(records.push(r).drop_last() =~= records);
}

proof fn lemma_of_slice_none(m: MetricsModel, records: Seq<Record>, start: u64)
    requires
        forall|k: int|
            0 <= k < records.len() ==> m.slice_start((#[trigger] records[k]).0.ts_ms) != start,
    ensures
        of_slice(m, records, start) == Seq::<Record>::empty(),
    decreases records.len(),
{
    reveal(Seq::filter);
    if records.len() > 0 {
        let front = records.drop_last();
        assert forall|k: int| 0 <= k < front.len() implies m.slice_start(
            (#[trigger] front[k]).0.ts_ms,
        ) != start by {
            assert(front[k] == records[k]);
        }
        lemma_of_slice_none(m, front, start);
        assert(m.slice_start(records[records.len() - 1].0.ts_ms) != start);
    }
}

/// While time does not run backwards, the series is right about all that was
/// ever recorded: each bucket counts exactly the records of its slice, the
/// buckets stand in order of time, the newest is the one of the newest record,
/// and only slices before the oldest bucket of a full series are missing.
pub proof fn series_counts_every_record(bucket_ms: u64, capacity: usize, records: Seq<Record>)
    requires
        forward(records),
    ensures
        ({
            let fresh = MetricsModel::fresh(bucket_ms, capacity);
            let m = metrics_after(bucket_ms, capacity, records);
            let b = m.buckets;
            &&& m.bucket_ms == fresh.bucket_ms
            &&& m.capacity == fresh.capacity
            &&& b.len() <= m.capacity
            &&& chronological(m)
            &&& forall|i: int|
                0 <= i < b.len() ==> #[trigger] b[i] == tally(
                    b[i].t_ms,
                    of_slice(m, records, b[i].t_ms),
                )
            &&& if records.len() == 0 {
                b.len() == 0
            } else {
                b.len() > 0 && b.last().t_ms == m.slice_start(records.last().0.ts_ms)
            }
            &&& forall|k: int|
                0 <= k < records.len() ==> {
                    let start = m.slice_start((#[trigger] records[k]).0.ts_ms);
                    has_bucket(m, start) || (b.len() == m.capacity && start < b[0].t_ms)
                }
        }),
    decreases records.len(),
{
    if records.len() > 0 {
        let front = records.drop_last();
        let (ev, verdict) = records.last();
        assert forall|i: int, j: int| 0 <= i <= j < front.len() implies (
        #[trigger] front[i]).0.ts_ms <= (#[trigger] front[j]).0.ts_ms by {
            assert(front[i] == records[i] && front[j] == records[j]);
        }
        series_counts_every_record(bucket_ms, capacity, front);
        let p = metrics_after(bucket_ms, capacity, front);
        let m = metrics_after(bucket_ms, capacity, records);
        let a = p.buckets;
        let b = m.buckets;
        let start = m.slice_start(ev.ts_ms);
        let open = p.opened(ev.ts_ms);
        assert(front.push(records.last()) =~= records);
        assert forall|t: u64| of_slice(m, front, t) == #[trigger] of_slice(p, front, t) by {
            assert((|r: Record| m.slice_start(r.0.ts_ms) == t) =~= (|r: Record|
                p.slice_start(r.0.ts_ms) == t));
        }
        if front.len() > 0 {
            assert(records[front.len() - 1].0.ts_ms <= records[records.len() - 1].0.ts_ms);
            lemma_slices_in_order(m, front.last().0.ts_ms, ev.ts_ms);
        }
        // Where the bucket at `i` was before.
        let k: int = if p.is_current(ev.ts_ms) || a.len() + 1 <= p.capacity {
            0
        } else {
            1
        };
        if p.is_current(ev.ts_ms) {
            assert(open == a);
        } else {
            let all = a.push(BucketModel::empty(start));
            assert forall|i: int| 0 <= i < open.len() implies #[trigger] open[i] == all[i + k] by {
            }
            assert forall|j: int| 0 <= j < front.len() implies p.slice_start(
                (#[trigger] front[j]).0.ts_ms,
            ) != start by {
                lemma_slices_in_order(p, front[j].0.ts_ms, front[front.len() - 1].0.ts_ms);
            }
            lemma_of_slice_none(p, front, start);
        }
        let n = open.len() - 1;
        assert(b.len() == open.len());
        assert(b[n] == open[n].counting(ev, verdict));
        assert(open[n].t_ms == start);
        assert forall|i: int| 0 <= i < n implies #[trigger] b[i] == a[i + k] && b[i].t_ms < start by {
            assert(b[i] == open[i]);
            if p.is_current(ev.ts_ms) {
                assert(a[i].t_ms < a[n].t_ms);
            } else {
                assert(a[i + k].t_ms <= a[a.len() - 1].t_ms);
            }
        }
        assert forall|i: int, j: int| 0 <= i < j < b.len() implies (#[trigger] b[i]).t_ms < (
        #[trigger] b[j]).t_ms by {
            if j < n {
                assert(a[i + k].t_ms < a[j + k].t_ms);
            }
        }
        assert forall|i: int| 0 <= i < b.len() implies #[trigger] b[i] == tally(
            b[i].t_ms,
            of_slice(m, records, b[i].t_ms),
        ) by {
            lemma_of_slice_push(m, front, records.last(), b[i].t_ms);
            assert(of_slice(m, front, b[i].t_ms) == of_slice(p, front, b[i].t_ms));
            if i < n {
                assert(b[i] == a[i + k]);
                assert(a[i + k] == tally(a[i + k].t_ms, of_slice(p, front, a[i + k].t_ms)));
            } else {
                let mine = of_slice(p, front, start);
                assert(mine.push(records.last()).drop_last() =~= mine);
                assert(of_slice(m, records, start) == mine.push(records.last()));
                if p.is_current(ev.ts_ms) {
                    assert(a[n] == tally(a[n].t_ms, of_slice(p, front, a[n].t_ms)));
                } else {
                    assert(open[n] == BucketModel::empty(start));
                    assert(tally(start, mine) == BucketModel::empty(start));
                }
                assert(open[n] == tally(start, mine));
                assert(b[i].t_ms == start);
                assert(tally(start, mine.push(records.last())) == tally(start, mine).counting(
                    ev,
                    verdict,
                ));
            }
        }
        assert forall|j: int| 0 <= j < records.len() implies {
            let s = m.slice_start((#[trigger] records[j]).0.ts_ms);
            has_bucket(m, s) || (b.len() == m.capacity && s < b[0].t_ms)
        } by {
            let s = m.slice_start(records[j].0.ts_ms);
            if j == front.len() {
                assert(b[n].t_ms == s);
            } else {
                assert(front[j] == records[j]);
                assert(s == p.slice_start(front[j].0.ts_ms));
                if has_bucket(p, s) {
                    let i = choose|i: int| 0 <= i < a.len() && (#[trigger] a[i]).t_ms == s;
                    if i < k {
                        if n > 0 {
                            assert(b[0] == a[k]);
                            assert(a[0].t_ms < a[k].t_ms);
                        } else {
                            assert(a[i].t_ms <= a[a.len() - 1].t_ms);
                        }
                    } else {
                        assert(b[i - k].t_ms == s);
                    }
                } else {
                    assert(a[0].t_ms <= a[a.len() - 1].t_ms);
                    if n > 0 {
                        assert(b[0] == a[k]);
                        assert(a[0].t_ms <= a[k].t_ms);
                    }
                }
            }
        }
    }
}

} // verus!
