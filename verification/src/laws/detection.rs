//! Detection: floods and scans are found, and their sources are blocked for the
//! configured time.

use vstd::prelude::*;

use crate::config::{Config, DdosConfig, ScanConfig};
use crate::detect::ratelimit::RateLimiter;
use crate::detect::runs;
use crate::detect::runs::Turn;
use crate::detect::scan::ScanDetector;
use crate::detect::{BlockEntry, BlockReason, Engine, EngineModel, Verdict};
use crate::event::{Direction, NetEvent, Proto};
use crate::ip::IpAddr;
use crate::window;
use crate::window::{Probe, Stamped};

verus! {

/// Whether the source is under a block at that time.
pub open spec fn under_block(m: EngineModel, ip: IpAddr, now: u64) -> bool {
    m.blocked.contains_key(ip) && now < m.blocked[ip].until_ms
}

/// A block that an inspection starts ends exactly the configured time of its own
/// module after the event: a scan's after `scan.block_ms`, a flood's after
/// `ddos.block_ms`. It is filed under the source, and no other block changes.
pub proof fn new_block_lasts_as_configured(
    e: &mut Engine,
    ev: NetEvent,
    r: Option<Verdict>,
    until_ms: u64,
    reason: BlockReason,
)
    requires
        old(e)@.wf(),
        call_ensures(Engine::try_inspect, (e, &ev), r),
        r == Some(Verdict::Block { until_ms, reason }),
        !under_block(old(e)@, ev.remote_ip, ev.ts_ms),
    ensures
        reason == BlockReason::PortScan || reason == BlockReason::RateLimit,
        reason == BlockReason::PortScan ==> until_ms == ev.ts_ms + old(e)@.cfg.scan.block_ms,
        reason == BlockReason::RateLimit ==> until_ms == ev.ts_ms + old(e)@.cfg.ddos.block_ms,
        final(e)@.blocked == old(e)@.blocked.insert(ev.remote_ip, BlockEntry { until_ms, reason }),
        final(e)@.cfg == old(e)@.cfg,
        final(e)@.whitelist == old(e)@.whitelist,
{
}

/// A source that was found is answered with its block at every time before the
/// block's end, and from then on with that block no more: what it is answered
/// with then is a pass or a block that starts with the new event.
pub proof fn found_source_is_blocked_for_exactly_that_time(
    e: &mut Engine,
    ev: NetEvent,
    r: Option<Verdict>,
    next: &mut Engine,
    later: NetEvent,
    answer: Option<Verdict>,
)
    requires
        old(e)@.wf(),
        call_ensures(Engine::try_inspect, (e, &ev), r),
        r matches Some(Verdict::Block { .. }),
        !under_block(old(e)@, ev.remote_ip, ev.ts_ms),
        old(next)@ == final(e)@,
        call_ensures(Engine::try_inspect, (next, &later), answer),
        later.remote_ip == ev.remote_ip,
    ensures
        ({
            let lasts = if r->0->reason == BlockReason::PortScan {
                old(e)@.cfg.scan.block_ms
            } else {
                old(e)@.cfg.ddos.block_ms
            };
            &&& later.ts_ms < ev.ts_ms + lasts ==> answer == r && final(next)@ == old(next)@
            &&& later.ts_ms >= ev.ts_ms + lasts ==> match answer {
                Some(Verdict::Block { until_ms, reason }) => until_ms == later.ts_ms + (if reason
                    == BlockReason::PortScan {
                    old(e)@.cfg.scan.block_ms
                } else {
                    old(e)@.cfg.ddos.block_ms
                }),
                _ => true,
            }
        }),
{
}

/// Outbound traffic and established flows are never the start of a block, and
/// leave no trace.
pub proof fn other_traffic_is_no_attempt(e: &mut Engine, ev: NetEvent, r: Option<Verdict>)
    requires
        old(e)@.wf(),
        call_ensures(Engine::try_inspect, (e, &ev), r),
        ev.direction == Direction::Outbound || !ev.is_new_conn,
    ensures
        final(e)@ == old(e)@,
        !under_block(old(e)@, ev.remote_ip, ev.ts_ms) ==> r == Some(Verdict::Pass),
{
}

/// A trusted source passes whatever it does, and leaves no trace; any other
/// source under a block is answered with that block and leaves no trace.
pub proof fn trust_comes_before_blocks(e: &mut Engine, ev: NetEvent, r: Option<Verdict>)
    requires
        old(e)@.wf(),
        call_ensures(Engine::try_inspect, (e, &ev), r),
    ensures
        old(e)@.whitelist.contains(ev.remote_ip) ==> r == Some(Verdict::Pass) && final(e)@ == old(e)@,
        !old(e)@.whitelist.contains(ev.remote_ip) && under_block(
            old(e)@,
            ev.remote_ip,
            ev.ts_ms,
        ) ==> r == Some(
            Verdict::Block {
                until_ms: old(e)@.blocked[ev.remote_ip].until_ms,
                reason: old(e)@.blocked[ev.remote_ip].reason,
            },
        ) && final(e)@ == old(e)@,
{
}

/// An event of one source touches no block, no history and no trust of another.
pub proof fn inspection_concerns_one_source(
    e: &mut Engine,
    ev: NetEvent,
    r: Option<Verdict>,
    other: IpAddr,
)
    requires
        old(e)@.wf(),
        call_ensures(Engine::try_inspect, (e, &ev), r),
        other != ev.remote_ip,
    ensures
        final(e)@.cfg == old(e)@.cfg,
        final(e)@.whitelist == old(e)@.whitelist,
        final(e)@.blocked.contains_key(other) == old(e)@.blocked.contains_key(other),
        final(e)@.blocked.contains_key(other) ==> final(e)@.blocked[other] == old(e)@.blocked[other],
        window::history(final(e)@.rl.per_ip, other) == window::history(old(e)@.rl.per_ip, other),
        window::history(final(e)@.scan.per_ip, other) == window::history(
            old(e)@.scan.per_ip,
            other,
        ),
{
}

/// An inspection gives no answer only where the end of the block that it would
/// start is no representable time.
pub proof fn inspection_answers_unless_time_runs_out(
    e: &mut Engine,
    ev: NetEvent,
    r: Option<Verdict>,
)
    requires
        old(e)@.wf(),
        call_ensures(Engine::try_inspect, (e, &ev), r),
    ensures
        r is None ==> ev.ts_ms + old(e)@.cfg.ddos.block_ms > u64::MAX || ev.ts_ms + old(e)@.cfg.scan.block_ms > u64::MAX,
        r is None ==> final(e)@.blocked == old(e)@.blocked,
{
}

/// The plain inspection answers as the careful one does.
pub proof fn inspections_agree(
    e: &mut Engine,
    f: &mut Engine,
    ev: NetEvent,
    r: Verdict,
    careful: Option<Verdict>,
)
    requires
        old(e)@.wf(),
        old(e)@ == old(f)@,
        call_ensures(Engine::inspect, (e, &ev), r),
        call_ensures(Engine::try_inspect, (f, &ev), careful),
        careful is Some,
    ensures
        careful == Some(r),
        final(e)@ == final(f)@,
{
}

/// A flood detector that has seen the turns trips exactly where, with this
/// event, too many new inbound attempts lie within the window.
pub proof fn flood_detector_counts_attempts(
    d: &mut RateLimiter,
    cfg: DdosConfig,
    turns: Seq<Turn>,
    ev: NetEvent,
    r: bool,
)
    requires
        old(d)@ == runs::rate_after(cfg, turns),
        runs::forward(turns.push(Turn::Event(ev))),
        call_ensures(RateLimiter::check, (d, &ev), r),
    ensures
        r <==> cfg.enabled && ev.direction == Direction::Inbound && ev.is_new_conn && (
        runs::own_attempts(turns, ev, cfg.window_ms).len() > cfg.max_conns_per_window || (
        cfg.global_max_conns_per_window > 0 && runs::attempts(turns, ev, cfg.window_ms).len()
            > cfg.global_max_conns_per_window)),
        final(d)@ == runs::rate_after(cfg, turns.push(Turn::Event(ev))),
{
    assert(turns.push(Turn::Event(ev)).drop_last() =~= turns);
    runs::flood_is_judged_by_all_attempts(cfg, turns, ev);
}

/// A scan detector that has seen the turns trips exactly where, with this event,
/// the new inbound attempts of the source within the window went to too many
/// distinct ports.
pub proof fn scan_detector_counts_ports(
    d: &mut ScanDetector,
    cfg: ScanConfig,
    turns: Seq<Turn>,
    ev: NetEvent,
    r: bool,
)
    requires
        old(d)@ == runs::scan_after(cfg, turns),
        runs::forward(turns.push(Turn::Event(ev))),
        call_ensures(ScanDetector::check, (d, &ev), r),
    ensures
        r <==> cfg.enabled && ev.direction == Direction::Inbound && ev.is_new_conn
            && runs::own_attempts(turns, ev, cfg.window_ms).map_values(
            |e: NetEvent| e.local_port,
        ).to_set().len() > cfg.distinct_ports_threshold,
        final(d)@ == runs::scan_after(cfg, turns.push(Turn::Event(ev))),
{
    assert(turns.push(Turn::Event(ev)).drop_last() =~= turns);
    runs::scan_is_judged_by_all_attempts(cfg, turns, ev);
}

/// A new engine that has seen the turns, and has no block on the source, answers
/// too many attempts with a block for a flood, too many ports with a block for a
/// scan, and anything else with a pass.
pub proof fn engine_answers_floods_and_scans(
    e: &mut Engine,
    cfg: Config,
    turns: Seq<Turn>,
    ev: NetEvent,
    r: Option<Verdict>,
)
    requires
        old(e)@ == runs::engine_after(cfg, turns),
        runs::forward(turns.push(Turn::Event(ev))),
        call_ensures(Engine::try_inspect, (e, &ev), r),
        !under_block(old(e)@, ev.remote_ip, ev.ts_ms),
        ev.ts_ms + cfg.ddos.block_ms <= u64::MAX,
        ev.ts_ms + cfg.scan.block_ms <= u64::MAX,
    ensures
        ({
            let attempt = ev.direction == Direction::Inbound && ev.is_new_conn;
            let rated = runs::reach_rate(cfg, turns);
            let scanned = runs::reach_scan(cfg, turns);
            let flood = cfg.ddos.enabled && attempt && (runs::own_attempts(
                rated,
                ev,
                cfg.ddos.window_ms,
            ).len() > cfg.ddos.max_conns_per_window || (cfg.ddos.global_max_conns_per_window > 0
                && runs::attempts(rated, ev, cfg.ddos.window_ms).len()
                > cfg.ddos.global_max_conns_per_window));
            let sweep = cfg.scan.enabled && attempt && runs::own_attempts(
                scanned,
                ev,
                cfg.scan.window_ms,
            ).map_values(|e: NetEvent| e.local_port).to_set().len()
                > cfg.scan.distinct_ports_threshold;
            &&& flood ==> r == Some(
                Verdict::Block {
                    until_ms: (ev.ts_ms + cfg.ddos.block_ms) as u64,
                    reason: BlockReason::RateLimit,
                },
            )
            &&& !flood && sweep ==> r == Some(
                Verdict::Block {
                    until_ms: (ev.ts_ms + cfg.scan.block_ms) as u64,
                    reason: BlockReason::PortScan,
                },
            )
            &&& !flood && !sweep ==> r == Some(Verdict::Pass)
            &&& final(e)@ == runs::engine_after(cfg, turns.push(Turn::Event(ev)))
        }),
{
    assert(turns.push(Turn::Event(ev)).drop_last() =~= turns);
    runs::engine_keeps_its_configuration(cfg, turns);
    runs::engine_judges_by_all_attempts(cfg, turns, ev);
}

/// Housekeeping keeps exactly the blocks that have not ended, as they were, and
/// changes neither the configuration nor the trust.
pub proof fn housekeeping_keeps_what_lasts(e: &mut Engine, now: u64, ip: IpAddr)
    requires
        old(e)@.wf(),
        call_ensures(Engine::tick, (e, now), ()),
    ensures
        final(e)@.blocked.contains_key(ip) <==> old(e)@.blocked.contains_key(ip) && old(e)@.blocked[ip].until_ms > now,
        final(e)@.blocked.contains_key(ip) ==> final(e)@.blocked[ip] == old(e)@.blocked[ip],
        final(e)@.cfg == old(e)@.cfg,
        final(e)@.whitelist == old(e)@.whitelist,
{
}

/// The list of active blocks is exactly the blocks that have not ended, each
/// once, with their ends and reasons.
pub proof fn listed_blocks_are_the_active_ones(
    e: Engine,
    now: u64,
    r: Vec<(IpAddr, u64, BlockReason)>,
    ip: IpAddr,
    until_ms: u64,
    reason: BlockReason,
)
    requires
        call_ensures(Engine::active_blocks, (&e, now), r),
    ensures
        r@.contains((ip, until_ms, reason)) <==> until_ms > now && e@.blocked.contains_key(ip)
            && e@.blocked[ip] == (BlockEntry { until_ms, reason }),
        r@.no_duplicates(),
{
    if r@.contains((ip, until_ms, reason)) {
        let i = choose|i: int| 0 <= i < r@.len() && r@[i] == (ip, until_ms, reason);
        assert(r@[i].0 == ip);
    }
    if until_ms > now && e@.blocked.contains_key(ip) && e@.blocked[ip] == (BlockEntry {
        until_ms,
        reason,
    }) {
        assert(e@.active(ip, now));
    }
    assert forall|i: int, j: int| 0 <= i < r@.len() && 0 <= j < r@.len() && i != j implies r@[i]
        != r@[j] by {
        if i < j {
            assert(r@[i].0 != r@[j].0);
        } else {
            assert(r@[j].0 != r@[i].0);
        }
    }
}

/// A block by hand holds until the given time and is one by hand; it can be
/// lifted, which touches no other block.
pub proof fn hand_blocks_are_set_and_lifted(
    e: &mut Engine,
    f: &mut Engine,
    ip: IpAddr,
    until_ms: u64,
    other: IpAddr,
)
    requires
        call_ensures(Engine::block_manual, (e, ip, until_ms), ()),
        call_ensures(Engine::unblock, (f, &ip), ()),
    ensures
        final(e)@.blocked.contains_key(ip),
        final(e)@.blocked[ip].until_ms == until_ms,
        final(e)@.blocked[ip].reason == BlockReason::Manual,
        !final(f)@.blocked.contains_key(ip),
        other != ip ==> final(e)@.blocked.contains_key(other) == old(e)@.blocked.contains_key(
            other,
        ) && final(f)@.blocked.contains_key(other) == old(f)@.blocked.contains_key(other),
        other != ip && old(e)@.blocked.contains_key(other) ==> final(e)@.blocked[other] == old(e)@.blocked[other],
        other != ip && old(f)@.blocked.contains_key(other) ==> final(f)@.blocked[other] == old(f)@.blocked[other],
        final(e)@.cfg == old(e)@.cfg && final(f)@.cfg == old(f)@.cfg,
        final(e)@.whitelist == old(e)@.whitelist && final(f)@.whitelist == old(f)@.whitelist,
        final(e)@.rl == old(e)@.rl && final(f)@.rl == old(f)@.rl,
        final(e)@.scan == old(e)@.scan && final(f)@.scan == old(f)@.scan,
{
}

/// Trust is given to and taken from one address, and nothing else changes.
pub proof fn trust_is_given_and_taken(
    e: &mut Engine,
    f: &mut Engine,
    ip: IpAddr,
    other: IpAddr,
)
    requires
        call_ensures(Engine::whitelist_add, (e, ip), ()),
        call_ensures(Engine::whitelist_remove, (f, &ip), ()),
    ensures
        final(e)@.whitelist.contains(ip),
        !final(f)@.whitelist.contains(ip),
        other != ip ==> final(e)@.whitelist.contains(other) == old(e)@.whitelist.contains(other)
            && final(f)@.whitelist.contains(other) == old(f)@.whitelist.contains(other),
        final(e)@.blocked == old(e)@.blocked && final(f)@.blocked == old(f)@.blocked,
        final(e)@.cfg == old(e)@.cfg && final(f)@.cfg == old(f)@.cfg,
        final(e)@.rl == old(e)@.rl && final(f)@.rl == old(f)@.rl,
        final(e)@.scan == old(e)@.scan && final(f)@.scan == old(f)@.scan,
{
}

/// A new configuration takes the place of the old one in the engine and in both
/// detectors; blocks, trust and what was counted stay.
pub proof fn configuration_is_replaced(e: &mut Engine, cfg: Config)
    requires
        call_ensures(Engine::set_config, (e, cfg), ()),
    ensures
        final(e)@.cfg == cfg,
        final(e)@.rl.cfg == cfg.ddos,
        final(e)@.scan.cfg == cfg.scan,
        final(e)@.blocked == old(e)@.blocked,
        final(e)@.whitelist == old(e)@.whitelist,
        final(e)@.rl.per_ip == old(e)@.rl.per_ip,
        final(e)@.rl.global == old(e)@.rl.global,
        final(e)@.scan.per_ip == old(e)@.scan.per_ip,
{
}

/// A module is switched without touching its other settings, the other module,
/// blocks, trust or what was counted.
pub proof fn modules_are_switched(e: &mut Engine, f: &mut Engine, on: bool)
    requires
        old(e)@.wf(),
        old(f)@.wf(),
        call_ensures(Engine::set_ddos_enabled, (e, on), ()),
        call_ensures(Engine::set_scan_enabled, (f, on), ()),
    ensures
        final(e)@.cfg.ddos.enabled == on,
        final(e)@.cfg.ddos.window_ms == old(e)@.cfg.ddos.window_ms,
        final(e)@.cfg.ddos.max_conns_per_window == old(e)@.cfg.ddos.max_conns_per_window,
        final(e)@.cfg.ddos.block_ms == old(e)@.cfg.ddos.block_ms,
        final(e)@.cfg.ddos.global_max_conns_per_window == old(e)@.cfg.ddos.global_max_conns_per_window,
        final(e)@.cfg.scan == old(e)@.cfg.scan,
        final(e)@.wf(),
        final(f)@.cfg.scan.enabled == on,
        final(f)@.cfg.scan.window_ms == old(f)@.cfg.scan.window_ms,
        final(f)@.cfg.scan.distinct_ports_threshold == old(f)@.cfg.scan.distinct_ports_threshold,
        final(f)@.cfg.scan.block_ms == old(f)@.cfg.scan.block_ms,
        final(f)@.cfg.ddos == old(f)@.cfg.ddos,
        final(f)@.wf(),
        final(e)@.blocked == old(e)@.blocked && final(f)@.blocked == old(f)@.blocked,
        final(e)@.whitelist == old(e)@.whitelist && final(f)@.whitelist == old(f)@.whitelist,
        final(e)@.rl.per_ip == old(e)@.rl.per_ip && final(f)@.rl.per_ip == old(f)@.rl.per_ip,
        final(e)@.scan.per_ip == old(e)@.scan.per_ip && final(f)@.scan.per_ip == old(f)@.scan.per_ip,
{
}

/// A new engine has the given configuration in itself and in both detectors, and
/// knows of nothing else.
pub proof fn new_engine_is_blank(cfg: Config, e: Engine)
    requires
        call_ensures(Engine::new, (cfg,), e),
    ensures
        e@ == runs::engine_after(cfg, Seq::empty()),
        e@.cfg == cfg && e@.rl.cfg == cfg.ddos && e@.scan.cfg == cfg.scan,
        forall|ip: IpAddr| !e@.blocked.contains_key(ip) && !e@.whitelist.contains(ip),
{
}

/// An attempt that is made up for a source is inbound and new, at the given time
/// and port.
pub proof fn made_up_attempt_counts(
    ts_ms: u64,
    proto: Proto,
    remote_ip: IpAddr,
    local_port: u16,
    r: NetEvent,
)
    requires
        call_ensures(NetEvent::inbound_new, (ts_ms, proto, remote_ip, local_port), r),
    ensures
        r.direction == Direction::Inbound && r.is_new_conn,
        r.ts_ms == ts_ms && r.proto == proto,
        r.remote_ip == remote_ip && r.local_port == local_port,
{
}

/// Out of the box both modules are on: a source is blocked for a minute on more
/// than forty new connections within a second, and for five minutes on more than
/// fifteen ports within three seconds; there is no global cap.
pub proof fn protection_is_on_out_of_the_box(c: Config, d: DdosConfig, s: ScanConfig)
    requires
        call_ensures(<Config as Default>::default, (), c),
        call_ensures(<DdosConfig as Default>::default, (), d),
        call_ensures(<ScanConfig as Default>::default, (), s),
    ensures
        c.ddos == d && c.scan == s,
        d.enabled && d.window_ms == 1_000 && d.max_conns_per_window == 40,
        d.block_ms == 60_000 && d.global_max_conns_per_window == 0,
        s.enabled && s.window_ms == 3_000 && s.distinct_ports_threshold == 15,
        s.block_ms == 300_000,
{
}

/// `after` is `before` without its first observations, up to the first that lies
/// no more than `width` before `now`.
pub open spec fn forgets<T: Stamped>(before: Seq<T>, after: Seq<T>, now: u64, width: u64) -> bool {
    &&& after.len() <= before.len()
    &&& after == before.skip(before.len() - after.len())
    &&& forall|i: int|
        0 <= i < before.len() - after.len() ==> now - (#[trigger] before[i]).stamp() > width
    &&& after.len() > 0 ==> now - after[0].stamp() <= width
}

/// What a trimmed history is.
pub proof fn lemma_forgets<T: Stamped>(s: Seq<T>, now: u64, width: u64)
    ensures
        forgets(s, window::live(s, now, width), now, width),
    decreases s.len(),
{
    window::lemma_stale_count_bound(s, now, width);
    if s.len() > 0 && window::stale(s[0].stamp(), now, width) {
        let tail = s.drop_first();
        lemma_forgets(tail, now, width);
        window::lemma_stale_count_bound(tail, now, width);
        let r = window::live(s, now, width);
        assert(r =~= window::live(tail, now, width));
        assert(r =~= s.skip(s.len() - r.len()));
        assert forall|i: int| 0 <= i < s.len() - r.len() implies now - (#[trigger] s[i]).stamp()
            > width by {
            if i > 0 {
                assert(tail[i - 1] == s[i]);
            }
        }
    } else {
        assert(window::live(s, now, width) =~= s);
        assert(s.skip(0) =~= s);
    }
}

proof fn lemma_forgets_one_way<T: Stamped>(s: Seq<T>, a: Seq<T>, now: u64, width: u64)
    requires
        forgets(s, a, now, width),
    ensures
        a == window::live(s, now, width),
{
    let b = window::live(s, now, width);
    lemma_forgets(s, now, width);
    if a.len() < b.len() {
        let i = s.len() - b.len();
        assert(b[0] == s[i]);
        assert(now - s[i].stamp() > width);
    }
    if b.len() < a.len() {
        let i = s.len() - a.len();
        assert(a[0] == s[i]);
        assert(now - s[i].stamp() > width);
    }
}

/// What is known of a source.
pub open spec fn known_of<T>(m: Map<IpAddr, Seq<T>>, ip: IpAddr) -> Seq<T> {
    if m.contains_key(ip) {
        m[ip]
    } else {
        Seq::empty()
    }
}

/// What an engine makes of an attempt, whatever its state: the attempt is added to
/// what is known of its source, and to the attempts of all where they are limited;
/// what has left the window is forgotten. More attempts than allowed are a flood.
/// Else the port is added to the ports that the source tried, and more different
/// ports than allowed are a scan. The block starts at once, and nothing else
/// changes.
pub proof fn attempt_is_weighed(
    e: &mut Engine,
    ev: NetEvent,
    r: Option<Verdict>,
    own: Seq<u64>,
    all: Seq<u64>,
    probes: Seq<Probe>,
)
    requires
        old(e)@.wf(),
        call_ensures(Engine::try_inspect, (e, &ev), r),
        ev.direction == Direction::Inbound,
        ev.is_new_conn,
        !old(e)@.whitelist.contains(ev.remote_ip),
        !under_block(old(e)@, ev.remote_ip, ev.ts_ms),
        ev.ts_ms + old(e)@.cfg.ddos.block_ms <= u64::MAX,
        ev.ts_ms + old(e)@.cfg.scan.block_ms <= u64::MAX,
        forgets(
            known_of(old(e)@.rl.per_ip, ev.remote_ip).push(ev.ts_ms),
            own,
            ev.ts_ms,
            old(e)@.cfg.ddos.window_ms,
        ),
        forgets(
            old(e)@.rl.global.push(ev.ts_ms),
            all,
            ev.ts_ms,
            old(e)@.cfg.ddos.window_ms,
        ),
        forgets(
            known_of(old(e)@.scan.per_ip, ev.remote_ip).push(
                Probe { ts_ms: ev.ts_ms, port: ev.local_port },
            ),
            probes,
            ev.ts_ms,
            old(e)@.cfg.scan.window_ms,
        ),
    ensures
        ({
            let a = old(e)@;
            let b = final(e)@;
            let limits = a.cfg.ddos;
            let flood = limits.enabled && (own.len() > limits.max_conns_per_window || (
            limits.global_max_conns_per_window > 0 && all.len()
                > limits.global_max_conns_per_window));
            let sweep = a.cfg.scan.enabled && probes.map_values(|p: Probe| p.port).to_set().len()
                > a.cfg.scan.distinct_ports_threshold;
            &&& r == Some(
                if flood {
                    Verdict::Block {
                        until_ms: (ev.ts_ms + limits.block_ms) as u64,
                        reason: BlockReason::RateLimit,
                    }
                } else if sweep {
                    Verdict::Block {
                        until_ms: (ev.ts_ms + a.cfg.scan.block_ms) as u64,
                        reason: BlockReason::PortScan,
                    }
                } else {
                    Verdict::Pass
                },
            )
            &&& b.rl.per_ip == (if limits.enabled {
                a.rl.per_ip.insert(ev.remote_ip, own)
            } else {
                a.rl.per_ip
            })
            &&& b.rl.global == (if limits.enabled && limits.global_max_conns_per_window > 0 {
                all
            } else {
                a.rl.global
            })
            &&& b.scan.per_ip == (if a.cfg.scan.enabled && !flood {
                a.scan.per_ip.insert(ev.remote_ip, probes)
            } else {
                a.scan.per_ip
            })
            &&& b.blocked == (match r {
                Some(Verdict::Block { until_ms, reason }) => a.blocked.insert(
                    ev.remote_ip,
                    BlockEntry { until_ms, reason },
                ),
                _ => a.blocked,
            })
            &&& b.cfg == a.cfg
            &&& b.whitelist == a.whitelist
        }),
{
    let m = old(e)@;
    lemma_forgets_one_way(
        known_of(m.rl.per_ip, ev.remote_ip).push(ev.ts_ms),
        own,
        ev.ts_ms,
        m.cfg.ddos.window_ms,
    );
    lemma_forgets_one_way(m.rl.global.push(ev.ts_ms), all, ev.ts_ms, m.cfg.ddos.window_ms);
    lemma_forgets_one_way(
        known_of(m.scan.per_ip, ev.remote_ip).push(
            Probe { ts_ms: ev.ts_ms, port: ev.local_port },
        ),
        probes,
        ev.ts_ms,
        m.cfg.scan.window_ms,
    );
}

/// Housekeeping forgets, of every source, what has left the window of its
/// detector, and keeps a source exactly if something is left of it.
pub proof fn housekeeping_forgets_in_time(e: &mut Engine, now: u64, ip: IpAddr)
    requires
        old(e)@.wf(),
        call_ensures(Engine::tick, (e, now), ()),
    ensures
        ({
            let a = old(e)@;
            let b = final(e)@;
            &&& forgets(
                known_of(a.rl.per_ip, ip),
                known_of(b.rl.per_ip, ip),
                now,
                a.cfg.ddos.window_ms,
            )
            &&& b.rl.per_ip.contains_key(ip) ==> b.rl.per_ip[ip].len() > 0
            &&& forgets(a.rl.global, b.rl.global, now, a.cfg.ddos.window_ms)
            &&& forgets(
                known_of(a.scan.per_ip, ip),
                known_of(b.scan.per_ip, ip),
                now,
                a.cfg.scan.window_ms,
            )
            &&& b.scan.per_ip.contains_key(ip) ==> b.scan.per_ip[ip].len() > 0
        }),
{
    let a = old(e)@;
    let b = final(e)@;
    window::lemma_history_pruned(a.rl.per_ip, ip, now, a.cfg.ddos.window_ms);
    window::lemma_history_pruned(a.scan.per_ip, ip, now, a.cfg.scan.window_ms);
    lemma_forgets(known_of(a.rl.per_ip, ip), now, a.cfg.ddos.window_ms);
    lemma_forgets(known_of(a.scan.per_ip, ip), now, a.cfg.scan.window_ms);
    lemma_forgets(a.rl.global, now, a.cfg.ddos.window_ms);
    assert(known_of(b.rl.per_ip, ip) == window::history(b.rl.per_ip, ip));
    assert(known_of(b.scan.per_ip, ip) == window::history(b.scan.per_ip, ip));
}

} // verus!
