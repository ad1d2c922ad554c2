//! What is counted: the buckets of the charts, the talkers, and the numbers on
//! the dashboard.

use vstd::prelude::*;
use vstd::string::*;

use crate::detect::{BlockEntry, BlockReason, Verdict};
use crate::event::{Direction, NetEvent};
use crate::guard;
use crate::guard::Guard;
use crate::ip::IpAddr;
use crate::laws::detection::{forgets, lemma_forgets};
use crate::metrics;
use crate::metrics::{BucketModel, BucketOut, Metrics, MetricsModel, Record};
use crate::pipeline;
use crate::pipeline::{
    build_tick, drop_percent, reason_str, BlockOut, TalkerOut, Talkers, TickPayload,
};
use crate::rank;
use crate::window;

verus! {

/// One more where something holds.
pub open spec fn plus(n: u32, holds: bool) -> int {
    if holds {
        n + 1
    } else {
        n as int
    }
}

/// `b` counts what `a` counts, and the event once: in its direction, under its
/// verdict, and its source among the addresses.
pub open spec fn counts_one_more(a: BucketModel, b: BucketModel, ev: NetEvent, v: Verdict) -> bool {
    &&& b.events == a.events + 1
    &&& b.inbound == plus(a.inbound, ev.direction == Direction::Inbound)
    &&& b.outbound == plus(a.outbound, ev.direction == Direction::Outbound)
    &&& b.passed == plus(a.passed, v is Pass)
    &&& b.blocked == plus(a.blocked, v is Block)
    &&& b.ratelimit_blocks == plus(
        a.ratelimit_blocks,
        v is Block && v->reason == BlockReason::RateLimit,
    )
    &&& b.scan_blocks == plus(a.scan_blocks, v is Block && v->reason == BlockReason::PortScan)
    &&& forall|ip: IpAddr| #[trigger]
        b.ips.contains(ip) <==> a.ips.contains(ip) || ip == ev.remote_ip
}

/// A bucket that counts nothing.
pub open spec fn counts_nothing(b: BucketModel) -> bool {
    &&& b.events == 0
    &&& b.inbound == 0
    &&& b.outbound == 0
    &&& b.passed == 0
    &&& b.blocked == 0
    &&& b.ratelimit_blocks == 0
    &&& b.scan_blocks == 0
    &&& forall|ip: IpAddr| !#[trigger] b.ips.contains(ip)
}

proof fn lemma_slice(t: int, d: int)
    requires
        t >= 0,
        d >= 1,
    ensures
        t % d >= 0,
        t % d <= t,
        t - t % d <= t,
        t < t - t % d + d,
        (t - t % d) % d == 0,
{
    vstd::arithmetic::div_mod::lemma_fundamental_div_mod(t, d);
    vstd::arithmetic::div_mod::lemma_mod_bound(t, d);
    vstd::arithmetic::div_mod::lemma_mod_decreases(t as nat, d as nat);
    assert(t - t % d == (t / d) * d) by {
        vstd::arithmetic::mul::lemma_mul_is_commutative(d, t / d);
    }
    vstd::arithmetic::div_mod::lemma_mod_multiples_basic(t / d, d);
}

/// An event is counted once, in the newest bucket, whose slice of time it lies
/// in: on top of what that bucket counts already, or in a new one, for which the
/// oldest makes room where there are as many as are kept. No other bucket
/// changes.
pub proof fn events_are_counted_once(m: &mut Metrics, ev: NetEvent, verdict: Verdict)
    requires
        old(m)@.wf(),
        old(m)@.has_room_spec(ev.ts_ms),
        call_ensures(Metrics::record, (m, &ev, &verdict), ()),
    ensures
        ({
            let a = old(m)@.buckets;
            let b = final(m)@.buckets;
            let width = old(m)@.bucket_ms;
            let top = b.last();
            let full = a.len() == old(m)@.capacity;
            let current = a.len() > 0 && a.last().t_ms <= ev.ts_ms && a.last().t_ms % width == 0
                && ev.ts_ms < a.last().t_ms + width;
            &&& b.len() > 0
            &&& final(m)@.bucket_ms == width
            &&& final(m)@.capacity == old(m)@.capacity
            &&& top.t_ms <= ev.ts_ms < top.t_ms + width
            &&& top.t_ms % width == 0
            &&& current ==> b.len() == a.len() && b.drop_last() == a.drop_last()
                && counts_one_more(a.last(), top, ev, verdict) && top.t_ms == a.last().t_ms
            &&& !current ==> b.drop_last() == (if full {
                a.drop_first()
            } else {
                a
            }) && exists|zero: BucketModel| #[trigger]
                counts_nothing(zero) && counts_one_more(zero, top, ev, verdict)
        }),
{
    let x = old(m)@;
    let a = x.buckets;
    let b = final(m)@.buckets;
    let width = x.bucket_ms as int;
    let t = ev.ts_ms as int;
    lemma_slice(t, width);
    let start = x.slice_start(ev.ts_ms);
    assert(start == t - t % width);
    if a.len() > 0 {
        let last = a.last().t_ms as int;
        assert(a[a.len() - 1].balanced());
        if last <= t < last + width && last % width == 0 {
            assert(last == start) by {
                vstd::arithmetic::div_mod::lemma_fundamental_div_mod(last, width);
                vstd::arithmetic::div_mod::lemma_fundamental_div_mod_converse(
                    t,
                    width,
                    last / width,
                    t - last,
                );
            }
        }
    }
    let zero = BucketModel::empty(start);
    assert(counts_nothing(zero));
    let open = x.opened(ev.ts_ms);
    assert(b.drop_last() =~= open.drop_last());
    assert(b.last() == open.last().counting(ev, verdict));
    if !x.is_current(ev.ts_ms) {
        let all = a.push(zero);
        assert(open.last() == zero);
        if all.len() > x.capacity {
            assert(open.drop_last() =~= a.drop_first());
        } else {
            assert(open.drop_last() =~= a);
        }
        assert(counts_one_more(zero, b.last(), ev, verdict));
    } else {
        assert(counts_one_more(a.last(), b.last(), ev, verdict));
    }
}

/// A bucket is shown with its own numbers, its addresses by their count.
pub open spec fn shows_bucket(o: BucketOut, b: BucketModel) -> bool {
    &&& o.t_ms == b.t_ms
    &&& o.events == b.events
    &&& o.inbound == b.inbound
    &&& o.outbound == b.outbound
    &&& o.passed == b.passed
    &&& o.blocked == b.blocked
    &&& o.ratelimit_blocks == b.ratelimit_blocks
    &&& o.scan_blocks == b.scan_blocks
    &&& o.unique_ips == b.ips.len()
}

/// The series shows every bucket, oldest first, and the latest is the newest.
pub proof fn buckets_are_shown_in_order(m: Metrics, r: Vec<BucketOut>, latest: Option<BucketOut>)
    requires
        m@.wf(),
        call_ensures(Metrics::series, (&m,), r),
        call_ensures(Metrics::latest, (&m,), latest),
    ensures
        r@.len() == m@.buckets.len(),
        forall|i: int| 0 <= i < r@.len() ==> shows_bucket(#[trigger] r@[i], m@.buckets[i]),
        latest is None <==> m@.buckets.len() == 0,
        latest matches Some(o) ==> o == r@.last() && shows_bucket(o, m@.buckets.last()),
{
    assert forall|i: int| 0 <= i < r@.len() implies shows_bucket(
        #[trigger] r@[i],
        m@.buckets[i],
    ) by {
        assert(m@.buckets[i].balanced());
    }
}

/// New metrics have counted nothing, and keep to the given width and number;
/// zero counts as one.
pub proof fn new_metrics_are_empty(bucket_ms: u64, capacity: usize, m: Metrics)
    requires
        call_ensures(Metrics::new, (bucket_ms, capacity), m),
    ensures
        m@.wf(),
        m@.buckets.len() == 0,
        bucket_ms >= 1 ==> m@.bucket_ms == bucket_ms,
        bucket_ms == 0 ==> m@.bucket_ms == 1,
        capacity >= 1 ==> m@.capacity == capacity,
        capacity == 0 ==> m@.capacity == 1,
{
}

/// Records of a kind.
pub open spec fn how_many(records: Seq<Record>, kind: spec_fn(Record) -> bool) -> nat {
    records.filter(kind).len()
}

proof fn lemma_how_many(records: Seq<Record>, kind: spec_fn(Record) -> bool)
    requires
        records.len() > 0,
    ensures
        how_many(records, kind) == how_many(records.drop_last(), kind) + if kind(records.last()) {
            1nat
        } else {
            0
        },
        how_many(records, kind) <= records.len(),
{
    reveal(Seq::filter);
    records.lemma_filter_len(kind);
}

/// The numbers of a bucket are the numbers of records: in all, in each direction,
/// passed and blocked, blocked for floods and for scans; and its addresses are
/// those that were recorded.
pub proof fn bucket_counts_its_records(start: u64, records: Seq<Record>)
    requires
        records.len() <= u32::MAX,
    ensures
        ({
            let b = metrics::tally(start, records);
            &&& b.t_ms == start
            &&& b.events == records.len()
            &&& b.inbound == how_many(records, |r: Record| r.0.direction == Direction::Inbound)
            &&& b.outbound == how_many(records, |r: Record| r.0.direction == Direction::Outbound)
            &&& b.passed == how_many(records, |r: Record| r.1 is Pass)
            &&& b.blocked == how_many(records, |r: Record| r.1 is Block)
            &&& b.ratelimit_blocks == how_many(
                records,
                |r: Record| r.1 is Block && r.1->reason == BlockReason::RateLimit,
            )
            &&& b.scan_blocks == how_many(
                records,
                |r: Record| r.1 is Block && r.1->reason == BlockReason::PortScan,
            )
            &&& forall|ip: IpAddr| #[trigger]
                b.ips.contains(ip) <==> exists|i: int|
                    0 <= i < records.len() && (#[trigger] records[i]).0.remote_ip == ip
        }),
    decreases records.len(),
{
    let k1 = |r: Record| r.0.direction == Direction::Inbound;
    let k2 = |r: Record| r.0.direction == Direction::Outbound;
    let k3 = |r: Record| r.1 is Pass;
    let k4 = |r: Record| r.1 is Block;
    let k5 = |r: Record| r.1 is Block && r.1->reason == BlockReason::RateLimit;
    let k6 = |r: Record| r.1 is Block && r.1->reason == BlockReason::PortScan;
    if records.len() == 0 {
        reveal(Seq::filter);
    } else {
        let front = records.drop_last();
        bucket_counts_its_records(start, front);
        lemma_how_many(records, k1);
        lemma_how_many(records, k2);
        lemma_how_many(records, k3);
        lemma_how_many(records, k4);
        lemma_how_many(records, k5);
        lemma_how_many(records, k6);
        let a = metrics::tally(start, front);
        let b = metrics::tally(start, records);
        assert forall|ip: IpAddr| #[trigger] b.ips.contains(ip) <==> exists|i: int|
            0 <= i < records.len() && (#[trigger] records[i]).0.remote_ip == ip by {
            if a.ips.contains(ip) {
                let i = choose|i: int|
                    0 <= i < front.len() && (#[trigger] front[i]).0.remote_ip == ip;
                assert(records[i].0.remote_ip == ip);
            }
            if exists|i: int|
                0 <= i < records.len() && (#[trigger] records[i]).0.remote_ip == ip {
                let i = choose|i: int|
                    0 <= i < records.len() && (#[trigger] records[i]).0.remote_ip == ip;
                if i < front.len() {
                    assert(front[i].0.remote_ip == ip);
                }
            }
            if ip == records.last().0.remote_ip {
                assert(records[records.len() - 1].0.remote_ip == ip);
            }
        }
    }
}

/// The records of a slice of time are those from its start on, up to the start of
/// the next.
pub proof fn slices_hold_their_time(m: MetricsModel, ts_ms: u64, start: u64)
    requires
        m.bucket_ms >= 1,
        start % m.bucket_ms == 0,
    ensures
        m.slice_start(ts_ms) == start <==> start <= ts_ms < start + m.bucket_ms,
{
    let d = m.bucket_ms as int;
    let t = ts_ms as int;
    lemma_slice(t, d);
    if start <= t < start + d {
        vstd::arithmetic::div_mod::lemma_fundamental_div_mod(start as int, d);
        vstd::arithmetic::mul::lemma_mul_is_commutative(d, start as int / d);
        vstd::arithmetic::div_mod::lemma_fundamental_div_mod_converse(
            t,
            d,
            start as int / d,
            t - start,
        );
    }
}

/// An event of a source is added to what is known of it, and what lies more than
/// the window before it goes, from the oldest on; other sources are untouched.
pub proof fn talker_is_recorded(t: &mut Talkers, ip: IpAddr, ts_ms: u64, other: IpAddr)
    requires
        call_ensures(Talkers::record, (t, ip, ts_ms), ()),
    ensures
        final(t)@.window_ms == old(t)@.window_ms,
        final(t)@.hits.contains_key(ip),
        final(t)@.hits[ip].len() > 0,
        final(t)@.hits[ip].last() == ts_ms,
        ({
            let before = if old(t)@.hits.contains_key(ip) {
                old(t)@.hits[ip].push(ts_ms)
            } else {
                seq![ts_ms]
            };
            forgets(before, final(t)@.hits[ip], ts_ms, old(t)@.window_ms)
        }),
        other != ip ==> final(t)@.hits.contains_key(other) == old(t)@.hits.contains_key(other),
        other != ip && old(t)@.hits.contains_key(other) ==> final(t)@.hits[other] == old(t)@.hits[other],
{
    let w = old(t)@.window_ms;
    let h = window::history(old(t)@.hits, ip).push(ts_ms);
    window::lemma_live_keeps_last(h, ts_ms, w);
    lemma_forgets(h, ts_ms, w);
    assert(Seq::<u64>::empty().push(ts_ms) =~= seq![ts_ms]);
}

/// Housekeeping trims what is known of each source to the window before now, and
/// forgets the sources of which nothing is left.
pub proof fn talkers_are_forgotten_in_time(t: &mut Talkers, now: u64, ip: IpAddr)
    requires
        call_ensures(Talkers::cleanup, (t, now), ()),
    ensures
        final(t)@.window_ms == old(t)@.window_ms,
        final(t)@.hits.contains_key(ip) ==> old(t)@.hits.contains_key(ip) && final(t)@.hits[ip].len() > 0 && forgets(
            old(t)@.hits[ip],
            final(t)@.hits[ip],
            now,
            old(t)@.window_ms,
        ),
        old(t)@.hits.contains_key(ip) && !final(t)@.hits.contains_key(ip) ==> forall|i: int|
            0 <= i < old(t)@.hits[ip].len() ==> now - #[trigger] old(t)@.hits[ip][i] > old(t)@.window_ms,
{
    if old(t)@.hits.contains_key(ip) {
        lemma_forgets(old(t)@.hits[ip], now, old(t)@.window_ms);
    }
}

/// A line for each of the sources with the most events, as many as asked for
/// where there are as many; each with the number of its events, and flagged if it
/// is among the flagged. The numbers fall along the list, and none that is left
/// out has a higher one.
pub proof fn top_talkers_have_the_most_events(
    t: Talkers,
    n: usize,
    flagged: &[IpAddr],
    r: Vec<TalkerOut>,
)
    requires
        call_ensures(Talkers::top, (&t, n, flagged), r),
        forall|ip: IpAddr| #[trigger]
            t@.hits.contains_key(ip) ==> t@.hits[ip].len() <= u32::MAX,
    ensures
        lists_top(t@.hits, n as nat, flagged@, r@),
{
    lemma_lists_top(t@, n as nat, flagged@, r@);
}

/// `list` shows the `n` sources with the most events.
pub open spec fn lists_top(
    hits: Map<IpAddr, Seq<u64>>,
    n: nat,
    flagged: Seq<IpAddr>,
    list: Seq<TalkerOut>,
) -> bool {
    &&& list.len() <= n
    &&& hits.dom().finite()
    &&& list.len() == n || list.len() == hits.dom().len()
    &&& forall|i: int, j: int|
        0 <= i < j < list.len() ==> (#[trigger] list[i]).n >= (#[trigger] list[j]).n
    &&& exists|ips: Seq<IpAddr>|
        {
            &&& #[trigger] ips.no_duplicates()
            &&& ips.len() == list.len()
            &&& forall|i: int|
                0 <= i < ips.len() ==> {
                    &&& hits.contains_key(#[trigger] ips[i])
                    &&& list[i].ip@ == ips[i].text()
                    &&& list[i].n == hits[ips[i]].len()
                    &&& list[i].flag <==> flagged.contains(ips[i])
                }
            &&& forall|ip: IpAddr, i: int|
                hits.contains_key(ip) && !#[trigger] ips.contains(ip) && 0 <= i < list.len()
                    ==> hits[ip].len() <= (#[trigger] list[i]).n
        }
}

proof fn lemma_lists_top(
    m: pipeline::TalkersModel,
    n: nat,
    flagged: Seq<IpAddr>,
    list: Seq<TalkerOut>,
)
    requires
        m.is_top(list, n, flagged),
        forall|ip: IpAddr| #[trigger] m.hits.contains_key(ip) ==> m.hits[ip].len() <= u32::MAX,
    ensures
        lists_top(m.hits, n, flagged, list),
{
    let order = choose|order: Seq<IpAddr>| #[trigger]
        m.by_volume(order) && list.len() == (if n < order.len() {
            n
        } else {
            order.len()
        }) && forall|i: int|
            0 <= i < list.len() ==> m.shows(#[trigger] list[i], order[i], flagged);
    order.unique_seq_to_set();
    vstd::seq_lib::seq_to_set_is_finite(order);
    let ips = order.take(list.len() as int);
    assert forall|i: int| 0 <= i < order.len() implies m.hits.contains_key(#[trigger] order[i])
        && m.volume(order[i]) == m.hits[order[i]].len() by {
        assert(order.to_set().contains(order[i]));
    }
    assert forall|i: int, j: int| 0 <= i < j < list.len() implies (#[trigger] list[i]).n >= (
    #[trigger] list[j]).n by {
        assert(m.shows(list[i], order[i], flagged));
        assert(m.shows(list[j], order[j], flagged));
        assert(m.volume(order[i]) >= m.volume(order[j]));
    }
    assert(ips.no_duplicates());
    assert forall|i: int| 0 <= i < ips.len() implies {
        &&& m.hits.contains_key(#[trigger] ips[i])
        &&& list[i].ip@ == ips[i].text()
        &&& list[i].n == m.hits[ips[i]].len()
        &&& list[i].flag <==> flagged.contains(ips[i])
    } by {
        assert(ips[i] == order[i]);
        assert(m.shows(list[i], order[i], flagged));
    }
    assert forall|ip: IpAddr, i: int|
        m.hits.contains_key(ip) && !#[trigger] ips.contains(ip) && 0 <= i < list.len() implies m.hits[ip].len()
        <= (#[trigger] list[i]).n by {
        assert(order.to_set().contains(ip));
        let k = choose|k: int| 0 <= k < order.len() && order[k] == ip;
        if k < list.len() {
            assert(ips[k] == ip);
        }
        assert(m.shows(list[i], order[i], flagged));
        assert(m.volume(order[i]) >= m.volume(order[k]));
    }
}

/// A new tracker knows nobody, and keeps to its window; zero counts as one.
pub proof fn new_talkers_are_unknown(window_ms: u64, t: Talkers, ip: IpAddr)
    requires
        call_ensures(Talkers::new, (window_ms,), t),
    ensures
        !t@.hits.contains_key(ip),
        window_ms >= 1 ==> t@.window_ms == window_ms,
        window_ms == 0 ==> t@.window_ms == 1,
{
}

/// The percentage is the nearest whole number to the share, with no events
/// counted as one, and 100 at most. Halves go up, but for four of them.
pub proof fn percentage_is_the_nearest(blocked: u32, events: u32, r: u32)
    requires
        call_ensures(drop_percent, (blocked, events), r),
    ensures
        r <= 100,
        blocked == 0 ==> r == 0,
        blocked > 0 && blocked >= events ==> r == 100,
        blocked < events ==> {
            let over = 100 * blocked - r * events;
            &&& 2 * over <= events
            &&& -2 * over <= events
            &&& 2 * over == events ==> r == 14 || r == 28 || r == 56 || r == 57
            &&& 2 * over == -events ==> r != 15 && r != 29 && r != 57 && r != 58
        },
{
    let total: int = if events == 0 {
        1
    } else {
        events as int
    };
    let x = 100 * blocked as int;
    let whole = x / total;
    let rest = x % total;
    vstd::arithmetic::div_mod::lemma_fundamental_div_mod(x, total);
    vstd::arithmetic::div_mod::lemma_mod_bound(x, total);
    assert(x == total * whole + rest);
    if blocked == 0 {
        pipeline::drop_percent_ends(events);
    } else if blocked >= events {
        assert(whole >= 100) by {
            if whole < 100 {
                assert(total * whole <= total * 99) by (nonlinear_arith)
                    requires
                        whole <= 99,
                        total >= 1,
                ;
            }
        }
    } else {
        assert(whole < 100) by {
            if whole >= 100 {
                assert(total * whole >= total * 100) by (nonlinear_arith)
                    requires
                        whole >= 100,
                        total >= 1,
                ;
            }
        }
        assert(whole * total == total * whole && (whole + 1) * total == total * whole + total)
            by (nonlinear_arith);
        assert(whole >= 0) by {
            vstd::arithmetic::div_mod::lemma_div_pos_is_pos(x, total);
        }
        if r == whole {
            assert(r * events == total * whole);
        } else {
            assert(r == whole + 1);
            assert(r * events == total * whole + total);
        }
    }
}

/// Each reason has its word.
pub proof fn reasons_have_their_words(r: BlockReason, s: &'static str)
    requires
        call_ensures(reason_str, (r,), s),
    ensures
        s@ == (match r {
            BlockReason::RateLimit => "flood"@,
            BlockReason::PortScan => "scan"@,
            BlockReason::Manual => "manual"@,
            BlockReason::Blocklist => "blocklist"@,
        }),
{
}

/// A line for a block names its address and reason, and the whole seconds that
/// remain of it.
pub open spec fn line_of_block(b: BlockOut, e: (IpAddr, u64, BlockReason), now: u64) -> bool {
    &&& b.ip@ == e.0.text()
    &&& b.reason@ == (match e.2 {
        BlockReason::RateLimit => "flood"@,
        BlockReason::PortScan => "scan"@,
        BlockReason::Manual => "manual"@,
        BlockReason::Blocklist => "blocklist"@,
    })
    &&& e.1 >= now ==> 1000 * b.ttl <= e.1 - now < 1000 * b.ttl + 1000
    &&& e.1 < now ==> b.ttl == 0
}

/// `lines` has a line for each block, the longest remaining time first, those of
/// the same time in their order.
pub open spec fn lines_of_blocks(
    lines: Seq<BlockOut>,
    blocks: Seq<(IpAddr, u64, BlockReason)>,
    now: u64,
) -> bool {
    exists|order: Seq<usize>|
        {
            &&& #[trigger] order.no_duplicates()
            &&& order.len() == blocks.len()
            &&& lines.len() == blocks.len()
            &&& forall|i: int|
                0 <= i < order.len() ==> (#[trigger] order[i]) < blocks.len() && line_of_block(
                    lines[i],
                    blocks[order[i] as int],
                    now,
                )
            &&& forall|i: int, j: int|
                0 <= i < j < order.len() ==> lines[i].ttl > lines[j].ttl || (lines[i].ttl
                    == lines[j].ttl && #[trigger] order[i] < #[trigger] order[j])
        }
}

proof fn lemma_lines_of_blocks(
    lines: Seq<BlockOut>,
    blocks: Seq<(IpAddr, u64, BlockReason)>,
    now: u64,
)
    requires
        pipeline::shows_blocks(lines, blocks, now),
    ensures
        lines_of_blocks(lines, blocks, now),
{
    let keys = pipeline::ttl_keys(blocks, now);
    let order = choose|order: Seq<usize>| #[trigger]
        rank::is_ranking(keys, order) && lines.len() == order.len() && forall|i: int|
            0 <= i < lines.len() ==> pipeline::shows_block(
                #[trigger] lines[i],
                blocks[order[i] as int],
                now,
            );
    assert forall|i: int| 0 <= i < order.len() implies (#[trigger] order[i]) < blocks.len()
        && line_of_block(lines[i], blocks[order[i] as int], now) && keys[order[i] as int].value
        == lines[i].ttl by {
        assert(pipeline::shows_block(lines[i], blocks[order[i] as int], now));
    }
    assert forall|i: int, j: int| 0 <= i < j < order.len() implies lines[i].ttl > lines[j].ttl || (
    lines[i].ttl == lines[j].ttl && #[trigger] order[i] < #[trigger] order[j]) by {
        assert(rank::precedes(keys, order[i] as int, order[j] as int));
        assert(order[i] != order[j]);
    }
    assert(order.no_duplicates());
}

/// The dashboard shows the numbers of the bucket, or zeros without one, the share
/// of what was dropped, the blocks, and the seven busiest sources, with those
/// flagged that are blocked.
pub proof fn dashboard_shows_the_bucket(
    bucket: Option<&BucketOut>,
    blocks: &[(IpAddr, u64, BlockReason)],
    talkers: Talkers,
    now: u64,
    r: TickPayload,
    percent: u32,
)
    requires
        call_ensures(build_tick, (bucket, blocks, &talkers, now), r),
        bucket matches Some(b) ==> call_ensures(drop_percent, (b.blocked, b.events), percent),
        forall|ip: IpAddr| #[trigger]
            talkers@.hits.contains_key(ip) ==> talkers@.hits[ip].len() <= u32::MAX,
    ensures
        bucket matches Some(b) ==> {
            &&& r.inbound == b.inbound
            &&& r.outbound == b.outbound
            &&& r.flood == b.ratelimit_blocks
            &&& r.scan == b.scan_blocks
            &&& r.unique == b.unique_ips
            &&& r.drop == percent
        },
        bucket is None ==> r.inbound == 0 && r.outbound == 0 && r.flood == 0 && r.scan == 0
            && r.unique == 0 && r.drop == 0,
        lines_of_blocks(r.blocks@, blocks@, now),
        exists|flagged: Seq<IpAddr>| #[trigger]
            lists_top(talkers@.hits, 7, flagged, r.talkers@) && flagged.len() == blocks@.len()
                && forall|i: int| 0 <= i < flagged.len() ==> #[trigger] flagged[i] == blocks@[i].0,
{
    lemma_lines_of_blocks(r.blocks@, blocks@, now);
    let flagged = blocks@.map_values(|e: (IpAddr, u64, BlockReason)| e.0);
    lemma_lists_top(talkers@, 7, flagged, r.talkers@);
    pipeline::drop_percent_ends(0);
}

/// `blocks` has each block that is active, once.
pub open spec fn active_ones(
    blocks: Seq<(IpAddr, u64, BlockReason)>,
    table: Map<IpAddr, BlockEntry>,
    now: u64,
) -> bool {
    &&& forall|i: int, j: int| 0 <= i < j < blocks.len() ==> blocks[i].0 != blocks[j].0
    &&& forall|ip: IpAddr, until_ms: u64, reason: BlockReason| #[trigger]
        blocks.contains((ip, until_ms, reason)) <==> table.contains_key(ip) && table[ip] == (
        BlockEntry { until_ms, reason }) && now < until_ms
}

/// At each tick ended blocks go, and the dashboard shows the newest bucket and
/// the blocks that are active, each once.
pub proof fn tick_shows_what_is_active(g: &mut Guard, now: u64, r: TickPayload, percent: u32)
    requires
        old(g)@.wf(),
        call_ensures(Guard::tick, (g, now), r),
        old(g)@.metrics.buckets.len() > 0 ==> call_ensures(
            drop_percent,
            (old(g)@.metrics.buckets.last().blocked, old(g)@.metrics.buckets.last().events),
            percent,
        ),
    ensures
        final(g)@.metrics == old(g)@.metrics,
        final(g)@.enforced == old(g)@.enforced,
        final(g)@.engine.cfg == old(g)@.engine.cfg,
        final(g)@.engine.whitelist == old(g)@.engine.whitelist,
        forall|ip: IpAddr| #[trigger]
            final(g)@.engine.blocked.contains_key(ip) <==> old(g)@.engine.blocked.contains_key(ip)
                && now < old(g)@.engine.blocked[ip].until_ms,
        forall|ip: IpAddr| #[trigger]
            final(g)@.engine.blocked.contains_key(ip) ==> final(g)@.engine.blocked[ip] == old(g)@.engine.blocked[ip],
        old(g)@.metrics.buckets.len() > 0 ==> {
            let b = old(g)@.metrics.buckets.last();
            &&& r.inbound == b.inbound
            &&& r.outbound == b.outbound
            &&& r.flood == b.ratelimit_blocks
            &&& r.scan == b.scan_blocks
            &&& r.unique == b.ips.len()
            &&& r.drop == percent
        },
        old(g)@.metrics.buckets.len() == 0 ==> r.inbound == 0 && r.outbound == 0 && r.flood == 0
            && r.scan == 0 && r.unique == 0 && r.drop == 0,
        exists|blocks: Seq<(IpAddr, u64, BlockReason)>| #[trigger]
            active_ones(blocks, old(g)@.engine.blocked, now) && lines_of_blocks(
                r.blocks@,
                blocks,
                now,
            ),
{
    let m = old(g)@.tidied(now);
    let before = old(g)@.engine.blocked;
    if m.metrics.buckets.len() > 0 {
        let n = m.metrics.buckets.len();
        assert(m.metrics.buckets[n - 1].balanced());
    }
    pipeline::drop_percent_ends(0);
    let blocks = choose|blocks: Seq<(IpAddr, u64, BlockReason)>| #[trigger]
        guard::lists_blocks(blocks, m.engine, now) && pipeline::shows_blocks(
            r.blocks@,
            blocks,
            now,
        ) && m.talkers.is_top(
            r.talkers@,
            7,
            blocks.map_values(|e: (IpAddr, u64, BlockReason)| e.0),
        );
    lemma_lines_of_blocks(r.blocks@, blocks, now);
    assert forall|ip: IpAddr, until_ms: u64, reason: BlockReason| #[trigger]
        blocks.contains((ip, until_ms, reason)) <==> before.contains_key(ip) && before[ip] == (
        BlockEntry { until_ms, reason }) && now < until_ms by {
        if blocks.contains((ip, until_ms, reason)) {
            let i = choose|i: int| 0 <= i < blocks.len() && blocks[i] == (ip, until_ms, reason);
            assert(m.engine.active(blocks[i].0, now));
        }
        if before.contains_key(ip) && before[ip] == (BlockEntry { until_ms, reason }) && now
            < until_ms {
            assert(m.engine.active(ip, now));
        }
    }
    assert(active_ones(blocks, before, now));
}

/// At each tick the talkers are brought up to date, and the dashboard shows the
/// seven busiest of them, with exactly those flagged that are under a block.
pub proof fn tick_shows_the_talkers(g: &mut Guard, now: u64, r: TickPayload, ip: IpAddr)
    requires
        old(g)@.wf(),
        call_ensures(Guard::tick, (g, now), r),
        forall|ip: IpAddr| #[trigger]
            old(g)@.talkers.hits.contains_key(ip) ==> old(g)@.talkers.hits[ip].len() <= u32::MAX,
    ensures
        ({
            let before = old(g)@.talkers;
            let after = final(g)@.talkers;
            &&& after.window_ms == before.window_ms
            &&& after.hits.contains_key(ip) ==> before.hits.contains_key(ip) && after.hits[ip].len()
                > 0 && forgets(before.hits[ip], after.hits[ip], now, before.window_ms)
            &&& before.hits.contains_key(ip) && !after.hits.contains_key(ip) ==> forall|i: int|
                0 <= i < before.hits[ip].len() ==> now - #[trigger] before.hits[ip][i]
                    > before.window_ms
        }),
        exists|flagged: Seq<IpAddr>| #[trigger]
            lists_top(final(g)@.talkers.hits, 7, flagged, r.talkers@) && forall|x: IpAddr| #[trigger]
                flagged.contains(x) <==> old(g)@.engine.blocked.contains_key(x) && now < old(g)@.engine.blocked[x].until_ms,
{
    let m = old(g)@.tidied(now);
    let before = old(g)@.talkers;
    let table = old(g)@.engine.blocked;
    if before.hits.contains_key(ip) {
        lemma_forgets(before.hits[ip], now, before.window_ms);
    }
    let blocks = choose|blocks: Seq<(IpAddr, u64, BlockReason)>| #[trigger]
        guard::lists_blocks(blocks, m.engine, now) && pipeline::shows_blocks(
            r.blocks@,
            blocks,
            now,
        ) && m.talkers.is_top(
            r.talkers@,
            7,
            blocks.map_values(|e: (IpAddr, u64, BlockReason)| e.0),
        );
    let flagged = blocks.map_values(|e: (IpAddr, u64, BlockReason)| e.0);
    assert forall|x: IpAddr| #[trigger] m.talkers.hits.contains_key(x) implies m.talkers.hits[x].len()
        <= u32::MAX by {
        window::lemma_stale_count_bound(before.hits[x], now, before.window_ms);
    }
    lemma_lists_top(m.talkers, 7, flagged, r.talkers@);
    assert forall|x: IpAddr| #[trigger] flagged.contains(x) <==> table.contains_key(x) && now
        < table[x].until_ms by {
        if flagged.contains(x) {
            let i = choose|i: int| 0 <= i < flagged.len() && flagged[i] == x;
            assert(m.engine.active(blocks[i].0, now));
        }
        if table.contains_key(x) && now < table[x].until_ms {
            assert(m.engine.active(x, now));
            let e = (x, m.engine.blocked[x].until_ms, m.engine.blocked[x].reason);
            assert(blocks.contains(e));
            let i = choose|i: int| 0 <= i < blocks.len() && blocks[i] == e;
            assert(flagged[i] == x);
        }
    }
}

/// The guard's series is that of its metrics.
pub proof fn guard_shows_its_buckets(g: Guard, r: Vec<BucketOut>)
    requires
        g@.wf(),
        call_ensures(Guard::series, (&g,), r),
    ensures
        r@.len() == g@.metrics.buckets.len(),
        forall|i: int| 0 <= i < r@.len() ==> shows_bucket(#[trigger] r@[i], g@.metrics.buckets[i]),
{
    assert forall|i: int| 0 <= i < r@.len() implies shows_bucket(
        #[trigger] r@[i],
        g@.metrics.buckets[i],
    ) by {
        assert(g@.metrics.buckets[i].balanced());
    }
}

/// There is room for an event unless the newest bucket is the one of its time and
/// is full.
pub proof fn room_runs_out_with_the_bucket(m: Metrics, ts_ms: u64, r: bool)
    requires
        m@.wf(),
        call_ensures(Metrics::has_room, (&m, ts_ms), r),
        m@.buckets.len() > 0 ==> m@.buckets.last().t_ms % m@.bucket_ms == 0,
    ensures
        !r <==> m@.buckets.len() > 0 && m@.buckets.last().t_ms <= ts_ms < m@.buckets.last().t_ms
            + m@.bucket_ms && m@.buckets.last().events == u32::MAX,
{
    if m@.buckets.len() > 0 {
        slices_hold_their_time(m@, ts_ms, m@.buckets.last().t_ms);
    }
}

} // verus!
