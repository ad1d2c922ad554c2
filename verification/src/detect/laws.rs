//! What holds of the engine as a whole.

use vstd::prelude::*;

use crate::event::NetEvent;
use crate::ip::IpAddr;
use crate::window;
use crate::window::{Probe, Stamped};

use super::{BlockEntry, BlockReason, EngineModel, Verdict};

verus! {

/// A whitelisted source always passes and leaves no trace.
pub proof fn whitelisted_source_passes(m: EngineModel, ev: NetEvent)
    requires
        m.whitelist.contains(ev.remote_ip),
    ensures
        m.verdict(ev) == Verdict::Pass,
        m.after(ev) == m,
{
}

/// While a block is active, every event of its source is answered with that
/// block, and the engine does not change.
pub proof fn active_block_is_enforced(m: EngineModel, ev: NetEvent)
    requires
        !m.whitelist.contains(ev.remote_ip),
        m.active(ev.remote_ip, ev.ts_ms),
    ensures
        m.verdict(ev) == (Verdict::Block {
            until_ms: m.blocked[ev.remote_ip].until_ms,
            reason: m.blocked[ev.remote_ip].reason,
        }),
        m.after(ev) == m,
{
}

/// A source blocked by hand is blocked until the given time and no longer, and
/// lifting the block undoes it: what remains is the state without any block of
/// that source.
pub proof fn manual_block_is_enforced_and_liftable(
    m: EngineModel,
    ip: IpAddr,
    until_ms: u64,
    ev: NetEvent,
)
    requires
        ev.remote_ip == ip,
        !m.whitelist.contains(ip),
    ensures
        ({
            let entry = BlockEntry { until_ms, reason: BlockReason::Manual };
            let held = EngineModel { blocked: m.blocked.insert(ip, entry), ..m };
            let lifted = EngineModel { blocked: held.blocked.remove(ip), ..held };
            &&& ev.ts_ms < until_ms ==> held.verdict(ev) == (Verdict::Block {
                until_ms,
                reason: BlockReason::Manual,
            })
            &&& ev.ts_ms >= until_ms ==> held.verdict(ev) == lifted.verdict(ev)
            &&& lifted == EngineModel { blocked: m.blocked.remove(ip), ..m }
            &&& !lifted.active(ip, ev.ts_ms)
        }),
{
    let entry = BlockEntry { until_ms, reason: BlockReason::Manual };
    let held = EngineModel { blocked: m.blocked.insert(ip, entry), ..m };
    assert(held.blocked.remove(ip) =~= m.blocked.remove(ip));
}

/// With a module switched off it never starts a block; with both off, only
/// blocks that are already there are enforced.
pub proof fn disabled_modules_never_block(m: EngineModel, ev: NetEvent)
    requires
        m.wf(),
    ensures
        !m.cfg.ddos.enabled ==> !(m.finding(ev) is Flood),
        !m.cfg.scan.enabled ==> !(m.finding(ev) is Sweep),
        !m.cfg.ddos.enabled && !m.cfg.scan.enabled && !m.active(ev.remote_ip, ev.ts_ms)
            ==> m.verdict(ev) == Verdict::Pass && m.after(ev) == m,
{
}

/// Outbound traffic and established flows start no block and leave no trace.
pub proof fn only_new_inbound_counts(m: EngineModel, ev: NetEvent)
    requires
        !ev.counts(),
    ensures
        m.new_block(ev) is None,
        !m.active(ev.remote_ip, ev.ts_ms) ==> m.verdict(ev) == Verdict::Pass,
        m.after(ev) == m,
{
}

/// What one source does never shows in another source's records; with the
/// global cap off, it never changes the verdict on another source's events.
pub proof fn sources_are_isolated(m: EngineModel, ev: NetEvent, other: NetEvent)
    requires
        m.wf(),
        ev.remote_ip != other.remote_ip,
    ensures
        ({
            let n = m.after(ev);
            let ip = other.remote_ip;
            &&& window::history(n.rl.per_ip, ip) == window::history(m.rl.per_ip, ip)
            &&& window::history(n.scan.per_ip, ip) == window::history(m.scan.per_ip, ip)
            &&& n.active(ip, other.ts_ms) == m.active(ip, other.ts_ms)
            &&& n.whitelist == m.whitelist
            &&& m.cfg.ddos.global_max_conns_per_window == 0 ==> n.verdict(other) == m.verdict(other)
        }),
{
}

/// Housekeeping is invisible: it changes no verdict on a later event, and after
/// that event the two engines are the same again at the next housekeeping.
pub proof fn housekeeping_is_invisible(m: EngineModel, now: u64, ev: NetEvent)
    requires
        m.wf(),
        now <= ev.ts_ms,
    ensures
        m.ticked(now).finding(ev) == m.finding(ev),
        m.ticked(now).verdict(ev) == m.verdict(ev),
        m.ticked(now).after(ev).ticked(ev.ts_ms) == m.after(ev).ticked(ev.ts_ms),
{
    let t = m.ticked(now);
    let ip = ev.remote_ip;
    let rate_window = m.cfg.ddos.window_ms;
    let scan_window = m.cfg.scan.window_ms;
    let probe = Probe { ts_ms: ev.ts_ms, port: ev.local_port };
    window::lemma_history_pruned(m.rl.per_ip, ip, now, rate_window);
    window::lemma_history_pruned(m.scan.per_ip, ip, now, scan_window);
    window::lemma_live_push(
        window::history(m.rl.per_ip, ip),
        ev.ts_ms,
        now,
        ev.ts_ms,
        rate_window,
    );
    window::lemma_live_push(
        window::history(m.scan.per_ip, ip),
        probe,
        now,
        ev.ts_ms,
        scan_window,
    );
    window::lemma_live_push(m.rl.global, ev.ts_ms, now, ev.ts_ms, rate_window);
    window::lemma_live_of_live(m.rl.global, now, ev.ts_ms, rate_window);
    assert(t.rl.recent(ev) == m.rl.recent(ev));
    assert(t.scan.recent(ev) == m.scan.recent(ev));
    assert(t.rl.recent_global(ev) == m.rl.recent_global(ev));
    assert(t.finding(ev) == m.finding(ev));
    assert(t.new_block(ev) == m.new_block(ev));
    let a = t.after(ev).ticked(ev.ts_ms);
    let b = m.after(ev).ticked(ev.ts_ms);
    lemma_pruned_twice(m.rl.per_ip, now, ev.ts_ms, rate_window);
    lemma_pruned_twice(m.scan.per_ip, now, ev.ts_ms, scan_window);
    lemma_pruned_insert(m.rl.per_ip, ip, m.rl.recent(ev), now, ev.ts_ms, rate_window);
    lemma_pruned_insert(m.scan.per_ip, ip, m.scan.recent(ev), now, ev.ts_ms, scan_window);
    assert(a.rl.per_ip =~= b.rl.per_ip);
    assert(a.rl.global =~= b.rl.global);
    assert(a.scan.per_ip =~= b.scan.per_ip);
    assert(a.blocked =~= b.blocked);
    assert(a =~= b);
}

proof fn lemma_pruned_twice<T: Stamped>(
    m: Map<IpAddr, Seq<T>>,
    now: u64,
    later: u64,
    window: u64,
)
    requires
        now <= later,
    ensures
        window::pruned(window::pruned(m, now, window), later, window) == window::pruned(
            m,
            later,
            window,
        ),
{
    let a = window::pruned(window::pruned(m, now, window), later, window);
    let b = window::pruned(m, later, window);
    assert forall|ip: IpAddr| #![trigger a.dom().contains(ip)] #![trigger b.dom().contains(ip)]
        #![trigger a[ip]] #![trigger b[ip]]
        a.dom().contains(ip) == b.dom().contains(ip) && (a.dom().contains(ip) ==> a[ip] == b[ip]) by {
        if m.contains_key(ip) {
            window::lemma_live_of_live(m[ip], now, later, window);
            window::lemma_stale_count_bound(window::live(m[ip], now, window), later, window);
        }
    }
    assert(a =~= b);
}

proof fn lemma_pruned_insert<T: Stamped>(
    m: Map<IpAddr, Seq<T>>,
    ip: IpAddr,
    h: Seq<T>,
    now: u64,
    later: u64,
    window: u64,
)
    requires
        now <= later,
    ensures
        window::pruned(window::pruned(m, now, window).insert(ip, h), later, window)
            == window::pruned(m.insert(ip, h), later, window),
{
    lemma_pruned_twice(m, now, later, window);
    let p = window::pruned(m, now, window);
    let a = window::pruned(p.insert(ip, h), later, window);
    let b = window::pruned(m.insert(ip, h), later, window);
    assert forall|k: IpAddr| #![trigger a.dom().contains(k)] #![trigger b.dom().contains(k)]
        #![trigger a[k]] #![trigger b[k]]
        a.dom().contains(k) == b.dom().contains(k) && (a.dom().contains(k) ==> a[k] == b[k]) by {
        if k != ip {
            assert(a.contains_key(k) == window::pruned(p, later, window).contains_key(k));
            assert(b.contains_key(k) == window::pruned(m, later, window).contains_key(k));
            if a.contains_key(k) {
                assert(a[k] == window::pruned(p, later, window)[k]);
                assert(b[k] == window::pruned(m, later, window)[k]);
            }
        }
    }
    assert(a =~= b);
}

/// After housekeeping every block is active, and every tracked source has been
/// seen within the window: memory does not grow without bound.
pub proof fn housekeeping_leaves_only_the_recent(m: EngineModel, now: u64, ip: IpAddr)
    ensures
        ({
            let t = m.ticked(now);
            &&& t.blocked.contains_key(ip) ==> t.active(ip, now)
            &&& t.rl.per_ip.contains_key(ip) ==> t.rl.per_ip[ip].len() > 0 && !window::stale(
                t.rl.per_ip[ip][0],
                now,
                m.rl.cfg.window_ms,
            )
            &&& t.scan.per_ip.contains_key(ip) ==> t.scan.per_ip[ip].len() > 0 && !window::stale(
                t.scan.per_ip[ip][0].ts_ms,
                now,
                m.scan.cfg.window_ms,
            )
        }),
{
    if m.rl.per_ip.contains_key(ip) {
        window::lemma_live_front(m.rl.per_ip[ip], now, m.rl.cfg.window_ms);
    }
    if m.scan.per_ip.contains_key(ip) {
        window::lemma_live_front(m.scan.per_ip[ip], now, m.scan.cfg.window_ms);
    }
}

/// Housekeeping after earlier housekeeping is as good as alone.
pub proof fn early_housekeeping_is_absorbed(m: EngineModel, now: u64, later: u64)
    requires
        now <= later,
    ensures
        m.ticked(now).ticked(later) == m.ticked(later),
{
    lemma_pruned_twice(m.rl.per_ip, now, later, m.rl.cfg.window_ms);
    lemma_pruned_twice(m.scan.per_ip, now, later, m.scan.cfg.window_ms);
    window::lemma_live_of_live(m.rl.global, now, later, m.rl.cfg.window_ms);
    assert(m.ticked(now).ticked(later).blocked =~= m.ticked(later).blocked);
    assert(m.ticked(now).ticked(later) =~= m.ticked(later));
}

/// Housekeeping twice at the same time is housekeeping once.
pub proof fn housekeeping_is_idempotent(m: EngineModel, now: u64)
    ensures
        m.ticked(now).ticked(now) == m.ticked(now),
{
    early_housekeeping_is_absorbed(m, now, now);
}

/// Every history is in order and nothing in it lies after `now`.
pub open spec fn orderly(m: EngineModel, now: u64) -> bool {
    &&& forall|ip: IpAddr| #[trigger]
        m.rl.per_ip.contains_key(ip) ==> window::in_order(m.rl.per_ip[ip]) && (
        m.rl.per_ip[ip].len() > 0 ==> m.rl.per_ip[ip].last() <= now)
    &&& forall|ip: IpAddr| #[trigger]
        m.scan.per_ip.contains_key(ip) ==> window::in_order(m.scan.per_ip[ip]) && (
        m.scan.per_ip[ip].len() > 0 ==> m.scan.per_ip[ip].last().ts_ms <= now)
    &&& window::in_order(m.rl.global)
    &&& m.rl.global.len() > 0 ==> m.rl.global.last() <= now
}

proof fn lemma_extend_in_order<T: Stamped>(h: Seq<T>, x: T, now: u64, window: u64)
    requires
        window::in_order(h),
        h.len() > 0 ==> h.last().stamp() <= now,
        x.stamp() == now,
    ensures
        window::in_order(window::live(h.push(x), now, window)),
        window::live(h.push(x), now, window).len() > 0,
        window::live(h.push(x), now, window).last() == x,
        window::live(h.push(x), now, window) == h.push(x).filter(
            |y: T| !window::stale(y.stamp(), now, window),
        ),
{
    let s = h.push(x);
    assert forall|i: int, j: int| 0 <= i <= j < s.len() implies (#[trigger] s[i]).stamp() <= (
    #[trigger] s[j]).stamp() by {
        if j == h.len() && i < j {
            assert(h[i].stamp() <= h[h.len() - 1].stamp());
        }
    }
    window::lemma_live_in_order(s, now, window);
    window::lemma_live_keeps_last(s, now, window);
}

/// A fresh engine is orderly, and it stays so while time does not run backwards.
pub proof fn orderly_while_time_moves_forward(m: EngineModel, now: u64, ev: NetEvent)
    requires
        m.wf(),
        orderly(m, now),
        now <= ev.ts_ms,
    ensures
        orderly(m.after(ev), ev.ts_ms),
{
    let ip = ev.remote_ip;
    lemma_extend_in_order(
        window::history(m.rl.per_ip, ip),
        ev.ts_ms,
        ev.ts_ms,
        m.cfg.ddos.window_ms,
    );
    lemma_extend_in_order(m.rl.global, ev.ts_ms, ev.ts_ms, m.cfg.ddos.window_ms);
    lemma_extend_in_order(
        window::history(m.scan.per_ip, ip),
        Probe { ts_ms: ev.ts_ms, port: ev.local_port },
        ev.ts_ms,
        m.cfg.scan.window_ms,
    );
}

/// Housekeeping keeps an engine orderly.
pub proof fn orderly_after_housekeeping(m: EngineModel, now: u64)
    requires
        orderly(m, now),
    ensures
        orderly(m.ticked(now), now),
{
    assert forall|ip: IpAddr| m.rl.per_ip.contains_key(ip) implies {
        let l = #[trigger] window::live(m.rl.per_ip[ip], now, m.rl.cfg.window_ms);
        window::in_order(l) && (l.len() > 0 ==> l.last() <= now)
    } by {
        let h = m.rl.per_ip[ip];
        window::lemma_live_in_order(h, now, m.rl.cfg.window_ms);
        window::lemma_stale_count_bound(h, now, m.rl.cfg.window_ms);
    }
    assert forall|ip: IpAddr| m.scan.per_ip.contains_key(ip) implies {
        let l = #[trigger] window::live(m.scan.per_ip[ip], now, m.scan.cfg.window_ms);
        window::in_order(l) && (l.len() > 0 ==> l.last().ts_ms <= now)
    } by {
        let h = m.scan.per_ip[ip];
        window::lemma_live_in_order(h, now, m.scan.cfg.window_ms);
        window::lemma_stale_count_bound(h, now, m.scan.cfg.window_ms);
    }
    window::lemma_live_in_order(m.rl.global, now, m.rl.cfg.window_ms);
    window::lemma_stale_count_bound(m.rl.global, now, m.rl.cfg.window_ms);
}

/// A fresh engine is orderly at any time.
pub proof fn fresh_engine_is_orderly(m: EngineModel, now: u64)
    requires
        m.rl.per_ip == Map::<IpAddr, Seq<u64>>::empty(),
        m.scan.per_ip == Map::<IpAddr, Seq<Probe>>::empty(),
        m.rl.global == Seq::<u64>::empty(),
    ensures
        orderly(m, now),
{
}

/// While time does not run backwards, an event is judged by exactly the attempts
/// that lie in the window that ends with it: the flood detector trips on more
/// than the allowed number of them, the scan detector on more than the allowed
/// number of distinct ports among them.
pub proof fn detectors_count_the_window(m: EngineModel, now: u64, ev: NetEvent)
    requires
        m.wf(),
        orderly(m, now),
        now <= ev.ts_ms,
        ev.counts(),
    ensures
        ({
            let ip = ev.remote_ip;
            let rate_window = m.cfg.ddos.window_ms;
            let scan_window = m.cfg.scan.window_ms;
            let probe = Probe { ts_ms: ev.ts_ms, port: ev.local_port };
            let hits = window::history(m.rl.per_ip, ip).push(ev.ts_ms).filter(
                |s: u64| !window::stale(s, ev.ts_ms, rate_window),
            );
            let all = m.rl.global.push(ev.ts_ms).filter(
                |s: u64| !window::stale(s, ev.ts_ms, rate_window),
            );
            let probes = window::history(m.scan.per_ip, ip).push(probe).filter(
                |p: Probe| !window::stale(p.ts_ms, ev.ts_ms, scan_window),
            );
            let cap = m.cfg.ddos.global_max_conns_per_window;
            &&& m.rl.trips(ev) == (m.cfg.ddos.enabled && (hits.len()
                > m.cfg.ddos.max_conns_per_window || (cap > 0 && all.len() > cap)))
            &&& m.scan.trips(ev) == (m.cfg.scan.enabled && super::scan::ports(probes).len()
                > m.cfg.scan.distinct_ports_threshold)
        }),
{
    let ip = ev.remote_ip;
    let probe = Probe { ts_ms: ev.ts_ms, port: ev.local_port };
    let rate_window = m.cfg.ddos.window_ms;
    let scan_window = m.cfg.scan.window_ms;
    let h = window::history(m.rl.per_ip, ip);
    let p = window::history(m.scan.per_ip, ip);
    lemma_extend_in_order(h, ev.ts_ms, ev.ts_ms, rate_window);
    lemma_extend_in_order(m.rl.global, ev.ts_ms, ev.ts_ms, rate_window);
    lemma_extend_in_order(p, probe, ev.ts_ms, scan_window);
    assert((|y: u64| !window::stale(y.stamp(), ev.ts_ms, rate_window)) =~= (|s: u64|
        !window::stale(s, ev.ts_ms, rate_window)));
    assert((|y: Probe| !window::stale(y.stamp(), ev.ts_ms, scan_window)) =~= (|q: Probe|
        !window::stale(q.ts_ms, ev.ts_ms, scan_window)));
}

/// A source that keeps to one port never looks like a scan.
pub proof fn one_port_is_no_scan(m: EngineModel, ev: NetEvent)
    requires
        m.wf(),
        m.cfg.scan.distinct_ports_threshold >= 1,
        forall|i: int|
            0 <= i < window::history(m.scan.per_ip, ev.remote_ip).len() ==> (
            #[trigger] window::history(m.scan.per_ip, ev.remote_ip)[i]).port == ev.local_port,
    ensures
        !m.scan.trips(ev),
{
    let h = window::history(m.scan.per_ip, ev.remote_ip);
    let r = m.scan.recent(ev);
    let s = h.push(Probe { ts_ms: ev.ts_ms, port: ev.local_port });
    window::lemma_stale_count_bound(s, ev.ts_ms, m.cfg.scan.window_ms);
    let only = Set::<u16>::empty().insert(ev.local_port);
    assert forall|p: u16| super::scan::ports(r).contains(p) implies only.contains(p) by {
        let mapped = r.map_values(|q: Probe| q.port);
        let i = choose|i: int| 0 <= i < mapped.len() && mapped[i] == p;
        let k = window::stale_count(s, ev.ts_ms, m.cfg.scan.window_ms);
        assert(r[i] == s[i + k]);
    }
    vstd::set_lib::lemma_len_subset(super::scan::ports(r), only);
}

/// A block ends: from its deadline on the source is no longer under it, and
/// once its window has passed too, housekeeping forgets the source altogether.
pub proof fn blocks_expire(m: EngineModel, ip: IpAddr, now: u64)
    requires
        m.blocked.contains_key(ip),
        m.blocked[ip].until_ms <= now,
    ensures
        !m.active(ip, now),
        !m.ticked(now).blocked.contains_key(ip),
        (forall|i: int|
            0 <= i < window::history(m.rl.per_ip, ip).len() ==> window::stale(
                #[trigger] window::history(m.rl.per_ip, ip)[i],
                now,
                m.rl.cfg.window_ms,
            )) ==> !m.ticked(now).rl.per_ip.contains_key(ip),
        (forall|i: int|
            0 <= i < window::history(m.scan.per_ip, ip).len() ==> window::stale(
                (#[trigger] window::history(m.scan.per_ip, ip)[i]).ts_ms,
                now,
                m.scan.cfg.window_ms,
            )) ==> !m.ticked(now).scan.per_ip.contains_key(ip),
{
    let h = window::history(m.rl.per_ip, ip);
    let p = window::history(m.scan.per_ip, ip);
    if forall|i: int|
        0 <= i < h.len() ==> window::stale(#[trigger] h[i], now, m.rl.cfg.window_ms) {
        assert forall|i: int| 0 <= i < h.len() implies window::stale(
            (#[trigger] h[i]).stamp(),
            now,
            m.rl.cfg.window_ms,
        ) by {
        }
        window::lemma_live_none(h, now, m.rl.cfg.window_ms);
    }
    if forall|i: int|
        0 <= i < p.len() ==> window::stale((#[trigger] p[i]).ts_ms, now, m.scan.cfg.window_ms) {
        assert forall|i: int| 0 <= i < p.len() implies window::stale(
            (#[trigger] p[i]).stamp(),
            now,
            m.scan.cfg.window_ms,
        ) by {
        }
        window::lemma_live_none(p, now, m.scan.cfg.window_ms);
    }
}

} // verus!
