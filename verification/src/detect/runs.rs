//! What holds of the detectors and of the engine over all that happened since
//! the start.

use vstd::prelude::*;

use crate::config::{Config, DdosConfig, ScanConfig};
use crate::event::{Direction, NetEvent};
use crate::history;
use crate::history::Step;
use crate::ip::IpAddr;
use crate::window;
use crate::window::{Probe, Stamped};

use super::laws;
use super::ratelimit::RateModel;
use super::scan::ScanModel;
use super::{EngineModel, Finding};

verus! {

/// What happens to a detector, or to the engine.
pub enum Turn {
    Event(NetEvent),
    Housekeeping(u64),
}

impl Turn {
    pub open spec fn time(self) -> u64 {
        match self {
            Turn::Event(ev) => ev.ts_ms,
            Turn::Housekeeping(now) => now,
        }
    }
}

/// Time does not run backwards.
pub open spec fn forward(turns: Seq<Turn>) -> bool {
    forall|i: int, j: int|
        0 <= i <= j < turns.len() ==> (#[trigger] turns[i]).time() <= (#[trigger] turns[j]).time()
}

/// The events among the turns.
pub open spec fn events(turns: Seq<Turn>) -> Seq<NetEvent>
    decreases turns.len(),
{
    if turns.len() == 0 {
        Seq::empty()
    } else {
        match turns.last() {
            Turn::Event(ev) => events(turns.drop_last()).push(ev),
            Turn::Housekeeping(_) => events(turns.drop_last()),
        }
    }
}

/// Whether an event is a new inbound connection attempt.
pub open spec fn is_attempt(ev: NetEvent) -> bool {
    ev.direction == Direction::Inbound && ev.is_new_conn
}

/// The new inbound attempts of all sources in the window that ends with `ev`,
/// `ev` among them.
pub open spec fn attempts(turns: Seq<Turn>, ev: NetEvent, width: u64) -> Seq<NetEvent> {
    events(turns).push(ev).filter(
        |e: NetEvent|
            e.direction == Direction::Inbound && e.is_new_conn && ev.ts_ms - e.ts_ms <= width,
    )
}

/// Those of the event's own source.
pub open spec fn own_attempts(turns: Seq<Turn>, ev: NetEvent, width: u64) -> Seq<NetEvent> {
    events(turns).push(ev).filter(
        |e: NetEvent|
            e.direction == Direction::Inbound && e.is_new_conn && e.remote_ip == ev.remote_ip
                && ev.ts_ms - e.ts_ms <= width,
    )
}

/// The flood detector after all turns, with one configuration throughout.
pub open spec fn rate_after(cfg: DdosConfig, turns: Seq<Turn>) -> RateModel
    decreases turns.len(),
{
    if turns.len() == 0 {
        RateModel { cfg, per_ip: Map::empty(), global: Seq::empty() }
    } else {
        let m = rate_after(cfg, turns.drop_last());
        match turns.last() {
            Turn::Event(ev) => m.after(ev),
            Turn::Housekeeping(now) => m.cleaned(now),
        }
    }
}

/// The scan detector after all turns, with one configuration throughout.
pub open spec fn scan_after(cfg: ScanConfig, turns: Seq<Turn>) -> ScanModel
    decreases turns.len(),
{
    if turns.len() == 0 {
        ScanModel { cfg, per_ip: Map::empty() }
    } else {
        let m = scan_after(cfg, turns.drop_last());
        match turns.last() {
            Turn::Event(ev) => m.after(ev),
            Turn::Housekeeping(now) => m.cleaned(now),
        }
    }
}

spec fn stamp_of(ev: NetEvent) -> u64 {
    ev.ts_ms
}

spec fn probe_of(ev: NetEvent) -> Probe {
    Probe { ts_ms: ev.ts_ms, port: ev.local_port }
}

/// The steps that the turns are for the windows of a detector.
spec fn steps<T>(turns: Seq<Turn>, f: spec_fn(NetEvent) -> T) -> Seq<Step<T>>
    decreases turns.len(),
{
    if turns.len() == 0 {
        Seq::empty()
    } else {
        let s = steps(turns.drop_last(), f);
        match turns.last() {
            Turn::Event(ev) => if ev.counts() {
                s.push(Step::Seen { ip: ev.remote_ip, item: f(ev) })
            } else {
                s
            },
            Turn::Housekeeping(now) => s.push(Step::Tidied { now }),
        }
    }
}

proof fn lemma_forward_front(turns: Seq<Turn>)
    requires
        forward(turns),
        turns.len() > 0,
    ensures
        forward(turns.drop_last()),
        turns.len() > 1 ==> turns.drop_last().last().time() <= turns.last().time(),
{
    let front = turns.drop_last();
    assert forall|i: int, j: int| 0 <= i <= j < front.len() implies (#[trigger] front[i]).time()
        <= (#[trigger] front[j]).time() by {
        assert(front[i] == turns[i] && front[j] == turns[j]);
    }
    if turns.len() > 1 {
        assert(turns[turns.len() - 2].time() <= turns[turns.len() - 1].time());
    }
}

proof fn lemma_steps_forward<T: Stamped>(turns: Seq<Turn>, f: spec_fn(NetEvent) -> T)
    requires
        forward(turns),
        forall|ev: NetEvent| #[trigger] f(ev).stamp() == ev.ts_ms,
    ensures
        history::forward(steps(turns, f)),
        steps(turns, f).len() > 0 ==> turns.len() > 0 && steps(turns, f).last().time()
            <= turns.last().time(),
    decreases turns.len(),
{
    if turns.len() > 0 {
        let front = turns.drop_last();
        lemma_forward_front(turns);
        lemma_steps_forward(front, f);
        let s = steps(front, f);
        let t = steps(turns, f);
        assert forall|i: int, j: int| 0 <= i <= j < t.len() implies (#[trigger] t[i]).time() <= (
        #[trigger] t[j]).time() by {
            if j == s.len() && i < j {
                assert(t[i] == s[i]);
                assert(s[i].time() <= s[s.len() - 1].time());
            } else if j < s.len() {
                assert(t[i] == s[i] && t[j] == s[j]);
            }
        }
    }
}

spec fn counted_from(ip: IpAddr) -> spec_fn(NetEvent) -> bool {
    |e: NetEvent| e.counts() && e.remote_ip == ip
}

proof fn lemma_steps_observed<T>(turns: Seq<Turn>, f: spec_fn(NetEvent) -> T, ip: IpAddr)
    ensures
        history::observed(steps(turns, f), ip) == events(turns).filter(
            counted_from(ip),
        ).map_values(f),
    decreases turns.len(),
{
    reveal(Seq::filter);
    if turns.len() > 0 {
        let front = turns.drop_last();
        lemma_steps_observed(front, f, ip);
        let s = steps(front, f);
        let kept = events(front).filter(counted_from(ip));
        match turns.last() {
            Turn::Event(ev) => {
                assert(events(turns).drop_last() =~= events(front));
                if ev.counts() {
                    let step = Step::Seen { ip: ev.remote_ip, item: f(ev) };
                    assert(s.push(step).drop_last() =~= s);
                }
                assert(kept.push(ev).map_values(f) =~= kept.map_values(f).push(f(ev)));
            },
            Turn::Housekeeping(now) => {
                assert(s.push(Step::<T>::Tidied { now }).drop_last() =~= s);
            },
        }
    } else {
        assert(history::observed(steps(turns, f), ip) =~= events(turns).filter(
            counted_from(ip),
        ).map_values(f));
    }
}

/// What a window of the event's source holds once the event is in it.
proof fn lemma_window_with<T: Stamped>(
    turns: Seq<Turn>,
    f: spec_fn(NetEvent) -> T,
    ev: NetEvent,
    width: u64,
)
    requires
        forward(turns.push(Turn::Event(ev))),
        forall|e: NetEvent| #[trigger] f(e).stamp() == e.ts_ms,
        ev.counts(),
    ensures
        window::extended(
            history::run(steps(turns, f), width),
            ev.remote_ip,
            f(ev),
            ev.ts_ms,
            width,
        ) == own_attempts(turns, ev, width).map_values(f),
{
    let ip = ev.remote_ip;
    let all = turns.push(Turn::Event(ev));
    assert(all.drop_last() =~= turns);
    lemma_steps_forward(all, f);
    let s = steps(turns, f);
    let t = steps(all, f);
    assert(t.drop_last() =~= s);
    history::windows_hold_the_recent(t, ip, width);
    lemma_steps_observed(all, f, ip);
    let fresh = |x: T| !window::stale(x.stamp(), ev.ts_ms, width);
    assert(history::settled(t, ip) == ev.ts_ms);
    assert((|x: T| history::settled(t, ip) - x.stamp() <= width) =~= fresh);
    let mine = events(all).filter(counted_from(ip));
    history::lemma_map_filter(mine, f, fresh);
    history::lemma_filter_filter(events(all), counted_from(ip), |e: NetEvent| fresh(f(e)));
    assert((|e: NetEvent| counted_from(ip)(e) && (|e: NetEvent| fresh(f(e)))(e)) =~= (|
        e: NetEvent,
    |
        e.direction == Direction::Inbound && e.is_new_conn && e.remote_ip == ev.remote_ip
            && ev.ts_ms - e.ts_ms <= width));
}

proof fn lemma_rate_after(cfg: DdosConfig, turns: Seq<Turn>)
    ensures
        rate_after(cfg, turns).cfg == cfg,
        cfg.enabled ==> rate_after(cfg, turns).per_ip == history::run(
            steps(turns, |e: NetEvent| stamp_of(e)),
            cfg.window_ms,
        ),
    decreases turns.len(),
{
    let f = |e: NetEvent| stamp_of(e);
    if turns.len() > 0 {
        let front = turns.drop_last();
        lemma_rate_after(cfg, front);
        let s = steps(front, f);
        match turns.last() {
            Turn::Event(ev) => {
                let step = Step::Seen { ip: ev.remote_ip, item: f(ev) };
                assert(s.push(step).drop_last() =~= s);
            },
            Turn::Housekeeping(now) => {
                assert(s.push(Step::<u64>::Tidied { now }).drop_last() =~= s);
            },
        }
    }
}

proof fn lemma_scan_after(cfg: ScanConfig, turns: Seq<Turn>)
    ensures
        scan_after(cfg, turns).cfg == cfg,
        cfg.enabled ==> scan_after(cfg, turns).per_ip == history::run(
            steps(turns, |e: NetEvent| probe_of(e)),
            cfg.window_ms,
        ),
    decreases turns.len(),
{
    let f = |e: NetEvent| probe_of(e);
    if turns.len() > 0 {
        let front = turns.drop_last();
        lemma_scan_after(cfg, front);
        let s = steps(front, f);
        match turns.last() {
            Turn::Event(ev) => {
                let step = Step::Seen { ip: ev.remote_ip, item: f(ev) };
                assert(s.push(step).drop_last() =~= s);
            },
            Turn::Housekeeping(now) => {
                assert(s.push(Step::<Probe>::Tidied { now }).drop_last() =~= s);
            },
        }
    }
}

/// When the window of all sources was last brought up to date.
spec fn settled(turns: Seq<Turn>) -> u64
    decreases turns.len(),
{
    if turns.len() == 0 {
        0
    } else {
        match turns.last() {
            Turn::Event(ev) if !ev.counts() => settled(turns.drop_last()),
            turn => turn.time(),
        }
    }
}

/// The stamps of all counted attempts.
spec fn stamps(turns: Seq<Turn>) -> Seq<u64> {
    events(turns).filter(|e: NetEvent| e.counts()).map_values(|e: NetEvent| e.ts_ms)
}

proof fn lemma_stamps_step(turns: Seq<Turn>)
    requires
        turns.len() > 0,
    ensures
        stamps(turns) == match turns.last() {
            Turn::Event(ev) if ev.counts() => stamps(turns.drop_last()).push(ev.ts_ms),
            _ => stamps(turns.drop_last()),
        },
{
    reveal(Seq::filter);
    let front = turns.drop_last();
    let counted = |e: NetEvent| e.counts();
    let kept = events(front).filter(counted);
    if let Turn::Event(ev) = turns.last() {
        assert(events(turns).drop_last() =~= events(front));
        assert(kept.push(ev).map_values(|e: NetEvent| e.ts_ms) =~= kept.map_values(
            |e: NetEvent| e.ts_ms,
        ).push(ev.ts_ms));
    }
}

proof fn lemma_global(cfg: DdosConfig, turns: Seq<Turn>)
    requires
        forward(turns),
        cfg.enabled,
        cfg.global_max_conns_per_window > 0,
    ensures
        rate_after(cfg, turns).global == window::live(
            stamps(turns),
            settled(turns),
            cfg.window_ms,
        ),
        window::in_order(stamps(turns)),
        stamps(turns).len() > 0 ==> stamps(turns).last() <= settled(turns),
        turns.len() > 0 ==> settled(turns) <= turns.last().time(),
    decreases turns.len(),
{
    let w = cfg.window_ms;
    if turns.len() > 0 {
        let front = turns.drop_last();
        lemma_forward_front(turns);
        lemma_global(cfg, front);
        lemma_rate_after(cfg, front);
        lemma_stamps_step(turns);
        let h = stamps(front);
        let t = settled(front);
        let s = stamps(turns);
        assert(t <= turns.last().time());
        match turns.last() {
            Turn::Event(ev) => {
                if ev.counts() {
                    window::lemma_live_push(h, ev.ts_ms, t, ev.ts_ms, w);
                    assert forall|i: int, j: int| 0 <= i <= j < s.len() implies (
                    #[trigger] s[i]).stamp() <= (#[trigger] s[j]).stamp() by {
                        if j == h.len() && i < j {
                            assert(h[i].stamp() <= h[h.len() - 1].stamp());
                        }
                    }
                }
            },
            Turn::Housekeeping(now) => {
                window::lemma_live_of_live(h, t, now, w);
            },
        }
    } else {
        window::lemma_stale_count_bound(stamps(turns), 0, w);
        assert(stamps(turns) =~= Seq::<u64>::empty()) by {
            reveal(Seq::filter);
        }
        assert(window::live(stamps(turns), 0, w) =~= Seq::<u64>::empty());
    }
}

/// While time does not run backwards, the flood detector judges an event by all
/// that happened since it was new, whatever the housekeeping in between: it trips
/// exactly if, with this event, its source has made more new inbound attempts
/// within the window than allowed, or, where there is a global cap, all sources
/// together have.
pub proof fn flood_is_judged_by_all_attempts(cfg: DdosConfig, turns: Seq<Turn>, ev: NetEvent)
    requires
        forward(turns.push(Turn::Event(ev))),
    ensures
        rate_after(cfg, turns).trips(ev) <==> cfg.enabled && is_attempt(ev) && (own_attempts(
            turns,
            ev,
            cfg.window_ms,
        ).len() > cfg.max_conns_per_window || (cfg.global_max_conns_per_window > 0 && attempts(
            turns,
            ev,
            cfg.window_ms,
        ).len() > cfg.global_max_conns_per_window)),
{
    lemma_rate_after(cfg, turns);
    if cfg.enabled && ev.counts() {
        let f = |e: NetEvent| stamp_of(e);
        lemma_window_with(turns, f, ev, cfg.window_ms);
        if cfg.global_max_conns_per_window > 0 {
            let all = turns.push(Turn::Event(ev));
            assert(all.drop_last() =~= turns);
            lemma_global(cfg, all);
            assert(rate_after(cfg, turns).recent_global(ev) == rate_after(cfg, all).global);
            window::lemma_live_in_order(stamps(all), ev.ts_ms, cfg.window_ms);
            let counted = |e: NetEvent| e.counts();
            let g = |e: NetEvent| e.ts_ms;
            let fresh = |x: u64| !window::stale(x.stamp(), ev.ts_ms, cfg.window_ms);
            history::lemma_map_filter(events(all).filter(counted), g, fresh);
            history::lemma_filter_filter(events(all), counted, |e: NetEvent| fresh(g(e)));
            assert((|e: NetEvent| counted(e) && (|e: NetEvent| fresh(g(e)))(e)) =~= (|e: NetEvent|
                e.direction == Direction::Inbound && e.is_new_conn && ev.ts_ms - e.ts_ms
                    <= cfg.window_ms));
        }
    }
}

/// While time does not run backwards, the scan detector judges an event by all
/// that happened since it was new, whatever the housekeeping in between: it trips
/// exactly if, with this event, the new inbound attempts of its source within the
/// window went to more distinct ports than allowed.
pub proof fn scan_is_judged_by_all_attempts(cfg: ScanConfig, turns: Seq<Turn>, ev: NetEvent)
    requires
        forward(turns.push(Turn::Event(ev))),
    ensures
        scan_after(cfg, turns).trips(ev) <==> cfg.enabled && is_attempt(ev) && own_attempts(
            turns,
            ev,
            cfg.window_ms,
        ).map_values(|e: NetEvent| e.local_port).to_set().len() > cfg.distinct_ports_threshold,
{
    lemma_scan_after(cfg, turns);
    if cfg.enabled && ev.counts() {
        let f = |e: NetEvent| probe_of(e);
        lemma_window_with(turns, f, ev, cfg.window_ms);
        let own = own_attempts(turns, ev, cfg.window_ms);
        assert(own.map_values(f).map_values(|p: Probe| p.port) =~= own.map_values(
            |e: NetEvent| e.local_port,
        ));
    }
}

/// A new engine.
pub open spec fn new_engine(cfg: Config) -> EngineModel {
    EngineModel {
        cfg,
        rl: RateModel { cfg: cfg.ddos, per_ip: Map::empty(), global: Seq::empty() },
        scan: ScanModel { cfg: cfg.scan, per_ip: Map::empty() },
        blocked: Map::empty(),
        whitelist: Set::empty(),
    }
}

/// The engine after all turns.
pub open spec fn engine_after(cfg: Config, turns: Seq<Turn>) -> EngineModel
    decreases turns.len(),
{
    if turns.len() == 0 {
        new_engine(cfg)
    } else {
        let m = engine_after(cfg, turns.drop_last());
        match turns.last() {
            Turn::Event(ev) => m.after(ev),
            Turn::Housekeeping(now) => m.ticked(now),
        }
    }
}

/// The turns that reach the flood detector: events of sources under an active
/// block do not.
pub open spec fn reach_rate(cfg: Config, turns: Seq<Turn>) -> Seq<Turn>
    decreases turns.len(),
{
    if turns.len() == 0 {
        Seq::empty()
    } else {
        let front = turns.drop_last();
        match turns.last() {
            Turn::Event(ev) if engine_after(cfg, front).finding(ev) is Active => reach_rate(
                cfg,
                front,
            ),
            turn => reach_rate(cfg, front).push(turn),
        }
    }
}

/// The turns that reach the scan detector: of the events that reach the flood
/// detector, those that do not trip it.
pub open spec fn reach_scan(cfg: Config, turns: Seq<Turn>) -> Seq<Turn>
    decreases turns.len(),
{
    if turns.len() == 0 {
        Seq::empty()
    } else {
        let front = turns.drop_last();
        match turns.last() {
            Turn::Event(ev) if engine_after(cfg, front).finding(ev) is Active || engine_after(
                cfg,
                front,
            ).finding(ev) is Flood => reach_scan(cfg, front),
            turn => reach_scan(cfg, front).push(turn),
        }
    }
}

proof fn lemma_engine_after(cfg: Config, turns: Seq<Turn>)
    ensures
        ({
            let m = engine_after(cfg, turns);
            &&& m.wf()
            &&& m.cfg == cfg
            &&& m.whitelist == Set::<IpAddr>::empty()
            &&& m.rl == rate_after(cfg.ddos, reach_rate(cfg, turns))
            &&& m.scan == scan_after(cfg.scan, reach_scan(cfg, turns))
        }),
    decreases turns.len(),
{
    if turns.len() > 0 {
        let front = turns.drop_last();
        let turn = turns.last();
        lemma_engine_after(cfg, front);
        assert(reach_rate(cfg, front).push(turn).drop_last() =~= reach_rate(cfg, front));
        assert(reach_scan(cfg, front).push(turn).drop_last() =~= reach_scan(cfg, front));
    }
}

/// An engine keeps its configuration through all turns, and trusts no one.
pub proof fn engine_keeps_its_configuration(cfg: Config, turns: Seq<Turn>)
    ensures
        engine_after(cfg, turns).wf(),
        engine_after(cfg, turns).cfg == cfg,
        engine_after(cfg, turns).whitelist == Set::<IpAddr>::empty(),
{
    lemma_engine_after(cfg, turns);
}

proof fn lemma_reach_forward(cfg: Config, turns: Seq<Turn>)
    requires
        forward(turns),
    ensures
        forward(reach_rate(cfg, turns)),
        forward(reach_scan(cfg, turns)),
        forall|i: int|
            0 <= i < reach_rate(cfg, turns).len() ==> turns.len() > 0 && (#[trigger] reach_rate(
                cfg,
                turns,
            )[i]).time() <= turns.last().time(),
        forall|i: int|
            0 <= i < reach_scan(cfg, turns).len() ==> turns.len() > 0 && (#[trigger] reach_scan(
                cfg,
                turns,
            )[i]).time() <= turns.last().time(),
    decreases turns.len(),
{
    if turns.len() > 0 {
        lemma_forward_front(turns);
        lemma_reach_forward(cfg, turns.drop_last());
    }
}

proof fn lemma_forward_push(turns: Seq<Turn>, turn: Turn)
    requires
        forward(turns),
        forall|i: int| 0 <= i < turns.len() ==> (#[trigger] turns[i]).time() <= turn.time(),
    ensures
        forward(turns.push(turn)),
{
}

/// While time does not run backwards, a new engine that is fed events, with
/// housekeeping whenever, starts a block exactly where all the attempts that
/// reached a detector call for it: for a flood where a source, or all together,
/// made too many of them within the window, and otherwise for a scan where those
/// of a source went to too many ports. An active block is enforced instead.
pub proof fn engine_judges_by_all_attempts(cfg: Config, turns: Seq<Turn>, ev: NetEvent)
    requires
        forward(turns.push(Turn::Event(ev))),
    ensures
        ({
            let m = engine_after(cfg, turns);
            let rated = reach_rate(cfg, turns);
            let scanned = reach_scan(cfg, turns);
            let flood = cfg.ddos.enabled && is_attempt(ev) && (own_attempts(
                rated,
                ev,
                cfg.ddos.window_ms,
            ).len() > cfg.ddos.max_conns_per_window || (cfg.ddos.global_max_conns_per_window > 0
                && attempts(rated, ev, cfg.ddos.window_ms).len()
                > cfg.ddos.global_max_conns_per_window));
            let sweep = cfg.scan.enabled && is_attempt(ev) && own_attempts(
                scanned,
                ev,
                cfg.scan.window_ms,
            ).map_values(|e: NetEvent| e.local_port).to_set().len()
                > cfg.scan.distinct_ports_threshold;
            m.finding(ev) == if m.active(ev.remote_ip, ev.ts_ms) {
                Finding::Active(m.blocked[ev.remote_ip])
            } else if flood {
                Finding::Flood
            } else if sweep {
                Finding::Sweep
            } else {
                Finding::Clear
            }
        }),
{
    let all = turns.push(Turn::Event(ev));
    let rated = reach_rate(cfg, turns);
    let scanned = reach_scan(cfg, turns);
    assert(all.drop_last() =~= turns);
    lemma_forward_front(all);
    lemma_engine_after(cfg, turns);
    lemma_reach_forward(cfg, turns);
    lemma_forward_push(rated, Turn::Event(ev));
    lemma_forward_push(scanned, Turn::Event(ev));
    flood_is_judged_by_all_attempts(cfg.ddos, rated, ev);
    scan_is_judged_by_all_attempts(cfg.scan, scanned, ev);
}

/// The turns without the housekeeping.
pub open spec fn without_housekeeping(turns: Seq<Turn>) -> Seq<Turn>
    decreases turns.len(),
{
    if turns.len() == 0 {
        Seq::empty()
    } else {
        match turns.last() {
            Turn::Event(_) => without_housekeeping(turns.drop_last()).push(turns.last()),
            Turn::Housekeeping(_) => without_housekeeping(turns.drop_last()),
        }
    }
}

proof fn lemma_same_after_tidying(cfg: Config, turns: Seq<Turn>)
    requires
        forward(turns),
    ensures
        ({
            let a = engine_after(cfg, turns);
            let b = engine_after(cfg, without_housekeeping(turns));
            &&& a.wf() && b.wf()
            &&& turns.len() > 0 ==> a.ticked(turns.last().time()) == b.ticked(turns.last().time())
            &&& turns.len() == 0 ==> a == b
        }),
    decreases turns.len(),
{
    lemma_engine_after(cfg, turns);
    lemma_engine_after(cfg, without_housekeeping(turns));
    if turns.len() > 0 {
        let front = turns.drop_last();
        let rest = without_housekeeping(front);
        let turn = turns.last();
        lemma_forward_front(turns);
        lemma_same_after_tidying(cfg, front);
        assert(rest.push(turn).drop_last() =~= rest);
        let a = engine_after(cfg, front);
        let b = engine_after(cfg, rest);
        match turn {
            Turn::Event(ev) => {
                if front.len() > 0 {
                    let t = front.last().time();
                    laws::housekeeping_is_invisible(a, t, ev);
                    laws::housekeeping_is_invisible(b, t, ev);
                }
            },
            Turn::Housekeeping(now) => {
                laws::housekeeping_is_idempotent(a, now);
                if front.len() > 0 {
                    let t = front.last().time();
                    laws::early_housekeeping_is_absorbed(a, t, now);
                    laws::early_housekeeping_is_absorbed(b, t, now);
                }
            },
        }
    }
}

/// While time does not run backwards, housekeeping never changes a verdict,
/// however often and whenever it is done.
pub proof fn housekeeping_changes_no_verdict(cfg: Config, turns: Seq<Turn>, ev: NetEvent)
    requires
        forward(turns.push(Turn::Event(ev))),
    ensures
        engine_after(cfg, turns).verdict(ev) == engine_after(
            cfg,
            without_housekeeping(turns),
        ).verdict(ev),
{
    let all = turns.push(Turn::Event(ev));
    assert(all.drop_last() =~= turns);
    lemma_forward_front(all);
    lemma_same_after_tidying(cfg, turns);
    if turns.len() > 0 {
        let t = turns.last().time();
        laws::housekeeping_is_invisible(engine_after(cfg, turns), t, ev);
        laws::housekeeping_is_invisible(engine_after(cfg, without_housekeeping(turns)), t, ev);
    }
}

} // verus!
