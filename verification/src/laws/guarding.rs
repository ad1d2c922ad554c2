//! The guard at work: sources are blocked once, for as long as the engine says,
//! and let go in time.

use vstd::prelude::*;
use vstd::string::*;

use crate::config::Config;
use crate::detect::{BlockEntry, BlockReason, Verdict};
use crate::event::NetEvent;
use crate::guard;
use crate::guard::{manual_block_end, Guard, GuardModel, Judgement, Observation};
use crate::ip::IpAddr;
use crate::laws::words;
use crate::parse;
use crate::wfp::{Firewall, Request};

verus! {

/// The event is judged by the engine, counted with its verdict, and noted among
/// the talkers; nothing else changes.
pub open spec fn judged_and_counted(before: GuardModel, after: GuardModel, ev: NetEvent) -> bool {
    &&& after.engine == before.engine.after(ev)
    &&& after.metrics == before.metrics.after(ev, before.engine.verdict(ev))
    &&& after.talkers == before.talkers.recorded(ev.remote_ip, ev.ts_ms)
}

/// An event that is seen through is judged and counted. Where its verdict is a
/// block and the packet filter does not block the source yet, the packet filter
/// is asked for one block, of the source; where it agrees, the block is noted
/// with its handle, to end when the verdict says. In every other case nothing is
/// asked and no block is noted.
pub proof fn verdicts_are_enforced<F: Firewall>(
    g: &mut Guard,
    fw: &mut F,
    ev: NetEvent,
    r: Option<Observation>,
)
    requires
        old(g)@.wf(),
        call_ensures(Guard::observe::<F>, (g, fw, &ev), r),
    ensures
        r matches Some(o) ==> {
            let before = old(g)@;
            let after = final(g)@;
            let wanted = before.engine.verdict(ev) is Block && !before.enforced.contains_key(
                ev.remote_ip,
            );
            &&& o.verdict == before.engine.verdict(ev)
            &&& judged_and_counted(before, after, ev)
            &&& wanted ==> final(fw).asked().len() == old(fw).asked().len() + 1
                && final(fw).asked().drop_last() == old(fw).asked() && (
            final(fw).asked().last() matches Request::BlockIp { ip, reply } && ip == ev.remote_ip
                && match reply {
                Ok(h) => o.report is None && after.enforced == before.enforced.insert(
                    ip,
                    (h, before.engine.verdict(ev)->until_ms),
                ),
                Err(e) => after.enforced == before.enforced && (o.report matches Some(t) && t@
                    == "block_ip failed for "@ + ip.text() + ": "@ + e),
            })
            &&& !wanted ==> final(fw).asked() == old(fw).asked() && after.enforced
                == before.enforced && o.report is None
        },
        r is None ==> final(fw).asked() == old(fw).asked() && final(g)@.metrics == old(g)@.metrics
            && final(g)@.talkers == old(g)@.talkers && final(g)@.enforced == old(g)@.enforced
            && final(g)@.engine.blocked == old(g)@.engine.blocked,
{
    let asked = old(fw).asked();
    if r is Some {
        if final(fw).asked() != asked {
            assert forall|x: Request| #[trigger] asked.push(x).drop_last() == asked by {
                assert(asked.push(x).drop_last() =~= asked);
            }
        }
    }
}

/// Every event is seen through whose numbers can be counted: the bucket of its
/// time has room, and a block that it starts ends within time.
pub proof fn events_are_seen_through<F: Firewall>(
    g: &mut Guard,
    fw: &mut F,
    ev: NetEvent,
    r: Option<Observation>,
)
    requires
        old(g)@.wf(),
        call_ensures(Guard::observe::<F>, (g, fw, &ev), r),
        ev.ts_ms + old(g)@.engine.cfg.ddos.block_ms <= u64::MAX,
        ev.ts_ms + old(g)@.engine.cfg.scan.block_ms <= u64::MAX,
        forall|i: int|
            0 <= i < old(g)@.metrics.buckets.len() ==> (
            #[trigger] old(g)@.metrics.buckets[i]).events < u32::MAX,
    ensures
        r is Some,
{
    let b = old(g)@.metrics.buckets;
    if b.len() > 0 {
        assert(b[b.len() - 1].events < u32::MAX);
    }
}

/// In two steps: the first judges and counts the event and says until when the
/// source is to be blocked, exactly if the verdict is a block and the source is
/// not blocked by the packet filter yet; the second notes the block.
pub proof fn events_are_judged_in_two_steps(
    g: &mut Guard,
    ev: NetEvent,
    r: Option<Judgement>,
    h: &mut Guard,
    ip: IpAddr,
    handle: u64,
    until_ms: u64,
)
    requires
        old(g)@.wf(),
        old(h)@.wf(),
        call_ensures(Guard::begin_event, (g, &ev), r),
        call_ensures(Guard::finish_event, (h, ip, handle, until_ms), ()),
    ensures
        r matches Some(j) ==> {
            &&& j.verdict == old(g)@.engine.verdict(ev)
            &&& judged_and_counted(old(g)@, final(g)@, ev)
            &&& final(g)@.enforced == old(g)@.enforced
            &&& match j.verdict {
                Verdict::Pass => j.block_until is None,
                Verdict::Block { until_ms, .. } => if old(g)@.enforced.contains_key(ev.remote_ip) {
                    j.block_until is None
                } else {
                    j.block_until == Some(until_ms)
                },
            }
        },
        final(h)@.enforced == old(h)@.enforced.insert(ip, (handle, until_ms)),
        final(h)@.engine == old(h)@.engine,
        final(h)@.metrics == old(h)@.metrics,
        final(h)@.talkers == old(h)@.talkers,
{
}

/// When a block by hand ends: the minutes, at least one, after now; at the end of
/// time at the latest.
pub open spec fn hand_block_end(minutes: u64, now: u64) -> int {
    let end = now + 60_000 * (if minutes < 1 {
        1int
    } else {
        minutes as int
    });
    if end > u64::MAX {
        u64::MAX as int
    } else {
        end
    }
}

/// A block by hand lasts the given minutes, at least one.
pub proof fn hand_block_lasts_its_minutes(minutes: u64, now: u64, r: u64)
    requires
        call_ensures(manual_block_end, (minutes, now), r),
    ensures
        r == hand_block_end(minutes, now),
{
}

/// A block by hand needs an address that can be read; without one nothing is
/// asked and nothing changes. The packet filter is asked to block the address;
/// where it refuses, its reason is the answer, and nothing changes. Where it
/// agrees, the packet filter and the engine block the address until the same
/// time, and the block of the address that was there before is lifted, after the
/// new one is in place.
pub proof fn hand_block_takes_hold<F: Firewall>(
    g: &mut Guard,
    fw: &mut F,
    ip: &str,
    minutes: u64,
    now: u64,
    r: Result<(), String>,
)
    requires
        old(g)@.wf(),
        call_ensures(Guard::block_remote_ip::<F>, (g, fw, ip, minutes, now), r),
    ensures
        r is Err ==> final(g)@ == old(g)@,
        parse::ip_of(ip@) is None ==> final(fw).asked() == old(fw).asked() && (r matches Err(e)
            && e@ == "invalid IP"@),
        parse::ip_of(ip@) matches Some(a) ==> {
            let n = old(fw).asked().len() as int;
            &&& final(fw).asked().len() > n
            &&& final(fw).asked().take(n) == old(fw).asked()
            &&& final(fw).asked()[n] matches Request::BlockIp { ip: asked, reply } && asked == a
                && match reply {
                Err(e) => final(fw).asked().len() == n + 1 && (r matches Err(t) && t@ == e),
                Ok(h) => {
                    let until = hand_block_end(minutes, now) as u64;
                    &&& r is Ok
                    &&& final(g)@.enforced == old(g)@.enforced.insert(a, (h, until))
                    &&& final(g)@.engine.blocked == old(g)@.engine.blocked.insert(
                        a,
                        BlockEntry { until_ms: until, reason: BlockReason::Manual },
                    )
                    &&& final(g)@.engine.cfg == old(g)@.engine.cfg
                    &&& final(g)@.engine.whitelist == old(g)@.engine.whitelist
                    &&& final(g)@.metrics == old(g)@.metrics
                    &&& final(g)@.talkers == old(g)@.talkers
                    &&& if old(g)@.enforced.contains_key(a) {
                        final(fw).asked().len() == n + 2 && final(fw).asked()[n + 1]
                            == (Request::Unblock { handle: old(g)@.enforced[a].0 })
                    } else {
                        final(fw).asked().len() == n + 1
                    }
                },
            }
        },
{
    let asked = old(fw).asked();
    let n = asked.len() as int;
    assert forall|x: Request| #[trigger] asked.push(x).take(n) == asked by {
        assert(asked.push(x).take(n) =~= asked);
    }
    assert forall|x: Request, y: Request| #[trigger] asked.push(x).push(y).take(n) == asked by {
        assert(asked.push(x).push(y).take(n) =~= asked);
    }
}

/// Lifting the block of an address takes it out of the engine and of what the
/// packet filter blocks; the packet filter is asked to lift it exactly if it
/// blocks the address. Nothing else changes.
pub proof fn lifted_block_is_gone<F: Firewall>(
    g: &mut Guard,
    fw: &mut F,
    ip: &str,
    r: Result<(), String>,
)
    requires
        old(g)@.wf(),
        call_ensures(Guard::unblock_ip::<F>, (g, fw, ip), r),
    ensures
        parse::ip_of(ip@) is None ==> (r matches Err(e) && e@ == "invalid IP"@) && final(g)@ == old(g)@ && final(fw).asked() == old(fw).asked(),
        parse::ip_of(ip@) matches Some(a) ==> {
            &&& r is Ok
            &&& final(g)@.engine.blocked == old(g)@.engine.blocked.remove(a)
            &&& final(g)@.enforced == old(g)@.enforced.remove(a)
            &&& final(g)@.engine.cfg == old(g)@.engine.cfg
            &&& final(g)@.engine.whitelist == old(g)@.engine.whitelist
            &&& final(g)@.metrics == old(g)@.metrics
            &&& final(g)@.talkers == old(g)@.talkers
            &&& final(fw).asked() == if old(g)@.enforced.contains_key(a) {
                old(fw).asked().push(Request::Unblock { handle: old(g)@.enforced[a].0 })
            } else {
                old(fw).asked()
            }
        },
{
}

/// Blocks whose end has come, and no others, are taken out: the block of an
/// address stays exactly if its end lies ahead.
pub proof fn blocks_end_in_time<F: Firewall>(g: &mut Guard, fw: &mut F, now: u64, ip: IpAddr)
    requires
        old(g)@.wf(),
        call_ensures(Guard::lift_ended::<F>, (g, fw, now), ()),
    ensures
        final(g)@.enforced.contains_key(ip) <==> old(g)@.enforced.contains_key(ip) && now < old(g)@.enforced[ip].1,
        final(g)@.enforced.contains_key(ip) ==> final(g)@.enforced[ip] == old(g)@.enforced[ip],
        final(g)@.engine == old(g)@.engine,
        final(g)@.metrics == old(g)@.metrics,
        final(g)@.talkers == old(g)@.talkers,
{
}

/// Each block that has ended is lifted by the packet filter, once, and no other
/// is.
pub proof fn ended_blocks_are_lifted<F: Firewall>(g: &mut Guard, fw: &mut F, now: u64)
    requires
        old(g)@.wf(),
        call_ensures(Guard::lift_ended::<F>, (g, fw, now), ()),
    ensures
        ({
            let before = old(g)@.enforced;
            let n = old(fw).asked().len() as int;
            &&& final(fw).asked().len() >= n
            &&& final(fw).asked().take(n) == old(fw).asked()
            &&& exists|ended: Seq<IpAddr>| #[trigger]
                has_ended(ended, before, now) && final(fw).asked().len() == n + ended.len()
                    && forall|k: int|
                    0 <= k < ended.len() ==> final(fw).asked()[n + k] == (Request::Unblock {
                        handle: before[#[trigger] ended[k]].0,
                    })
        }),
{
    let before = old(g)@.enforced;
    let asked = old(fw).asked();
    let n = asked.len() as int;
    let ips = choose|ips: Seq<IpAddr>| #[trigger]
        guard::lists_ended(ips, before, now) && final(fw).asked() == asked + ips.map_values(
            |ip: IpAddr| Request::Unblock { handle: before[ip].0 },
        );
    assert(has_ended(ips, before, now));
    assert(final(fw).asked().take(n) =~= asked);
}

/// `ended` lists, each once, the addresses whose block has come to its end.
pub open spec fn has_ended(ended: Seq<IpAddr>, blocks: Map<IpAddr, (u64, u64)>, now: u64) -> bool {
    &&& forall|i: int, j: int| 0 <= i < j < ended.len() ==> ended[i] != ended[j]
    &&& forall|ip: IpAddr| #[trigger]
        ended.contains(ip) <==> blocks.contains_key(ip) && blocks[ip].1 <= now
}

/// The handles of the blocks that have ended are handed out, once each.
pub proof fn ended_handles_are_handed_out(g: &mut Guard, now: u64, r: Vec<u64>, ip: IpAddr)
    requires
        old(g)@.wf(),
        call_ensures(Guard::expire, (g, now), r),
    ensures
        final(g)@.enforced.contains_key(ip) <==> old(g)@.enforced.contains_key(ip) && now < old(g)@.enforced[ip].1,
        final(g)@.enforced.contains_key(ip) ==> final(g)@.enforced[ip] == old(g)@.enforced[ip],
        final(g)@.engine == old(g)@.engine,
        exists|ended: Seq<IpAddr>| #[trigger]
            has_ended(ended, old(g)@.enforced, now) && r@.len() == ended.len() && forall|k: int|
                0 <= k < ended.len() ==> r@[k] == old(g)@.enforced[#[trigger] ended[k]].0,
{
    let before = old(g)@.enforced;
    let ips = choose|ips: Seq<IpAddr>| #[trigger]
        guard::lists_ended(ips, before, now) && r@ == ips.map_values(|ip: IpAddr| before[ip].0);
    assert(has_ended(ips, before, now));
}

/// Trust needs an address that can be read, and concerns that address alone.
pub proof fn trusted_address_is_noted(g: &mut Guard, ip: &str, r: Result<(), String>)
    requires
        old(g)@.wf(),
        call_ensures(Guard::whitelist_add, (g, ip), r),
    ensures
        r is Ok <==> parse::ip_of(ip@) is Some,
        r matches Err(e) ==> e@ == "invalid IP"@ && final(g)@ == old(g)@,
        parse::ip_of(ip@) matches Some(a) ==> final(g)@.engine.whitelist == old(g)@.engine.whitelist.insert(a),
        final(g)@.engine.blocked == old(g)@.engine.blocked,
        final(g)@.engine.cfg == old(g)@.engine.cfg,
        final(g)@.enforced == old(g)@.enforced,
        final(g)@.metrics == old(g)@.metrics,
        final(g)@.talkers == old(g)@.talkers,
{
}

/// The module that is named is switched, and nothing else: not the other module,
/// nor any number of the configuration, nor any block.
pub proof fn protection_is_switched_by_name(g: &mut Guard, module: &str, enabled: bool)
    requires
        old(g)@.wf(),
        call_ensures(Guard::set_protection, (g, module, enabled), ()),
    ensures
        ({
            let a = old(g)@.engine.cfg;
            let b = final(g)@.engine.cfg;
            &&& b.ddos.enabled == (if module@ == "ddos"@ {
                enabled
            } else {
                a.ddos.enabled
            })
            &&& b.scan.enabled == (if module@ == "scan"@ {
                enabled
            } else {
                a.scan.enabled
            })
            &&& b == (Config {
                ddos: crate::config::DdosConfig { enabled: b.ddos.enabled, ..a.ddos },
                scan: crate::config::ScanConfig { enabled: b.scan.enabled, ..a.scan },
                ..a
            })
        }),
        final(g)@.wf(),
        final(g)@.engine.blocked == old(g)@.engine.blocked,
        final(g)@.engine.whitelist == old(g)@.engine.whitelist,
        final(g)@.engine.rl.per_ip == old(g)@.engine.rl.per_ip,
        final(g)@.engine.rl.global == old(g)@.engine.rl.global,
        final(g)@.engine.scan.per_ip == old(g)@.engine.scan.per_ip,
        final(g)@.enforced == old(g)@.enforced,
        final(g)@.metrics == old(g)@.metrics,
        final(g)@.talkers == old(g)@.talkers,
{
    words::modules_differ();
}

/// The configuration that is set is the one that is in force and read back;
/// blocks, trust and counts stay.
pub proof fn configuration_is_set(g: &mut Guard, cfg: Config, h: Guard, read: &Config)
    requires
        old(g)@.wf(),
        call_ensures(Guard::set_config, (g, cfg), ()),
        h@ == final(g)@,
        call_ensures(Guard::config, (&h,), read),
    ensures
        *read == cfg,
        final(g)@.wf(),
        final(g)@.engine.cfg == cfg,
        final(g)@.engine.blocked == old(g)@.engine.blocked,
        final(g)@.engine.whitelist == old(g)@.engine.whitelist,
        final(g)@.engine.rl.per_ip == old(g)@.engine.rl.per_ip,
        final(g)@.engine.rl.global == old(g)@.engine.rl.global,
        final(g)@.engine.scan.per_ip == old(g)@.engine.scan.per_ip,
        final(g)@.enforced == old(g)@.enforced,
        final(g)@.metrics == old(g)@.metrics,
        final(g)@.talkers == old(g)@.talkers,
{
}

/// A new guard blocks nobody, trusts nobody and has counted nothing. It counts by
/// the second, for three minutes, and knows the talkers of the last minute.
pub proof fn new_guard_is_blank(cfg: Config, g: Guard, ip: IpAddr)
    requires
        call_ensures(Guard::new, (cfg,), g),
    ensures
        g@.wf(),
        g@.engine.cfg == cfg,
        !g@.engine.blocked.contains_key(ip),
        !g@.engine.whitelist.contains(ip),
        !g@.enforced.contains_key(ip),
        !g@.talkers.hits.contains_key(ip),
        g@.metrics.buckets.len() == 0,
        g@.metrics.bucket_ms == 1000,
        g@.metrics.capacity == 180,
        g@.talkers.window_ms == 60_000,
{
}

/// A block by hand in two steps: the first reads the address and says when the
/// block ends; the second notes the block with the packet filter and the engine,
/// and hands out the handle of the one that was there.
pub proof fn hand_blocks_in_two_steps(
    g: Guard,
    ip: &str,
    minutes: u64,
    now: u64,
    r: Result<(IpAddr, u64), String>,
    h: &mut Guard,
    a: IpAddr,
    until_ms: u64,
    handle: u64,
    former: Option<u64>,
)
    requires
        call_ensures(Guard::begin_manual_block, (&g, ip, minutes, now), r),
        old(h)@.wf(),
        call_ensures(Guard::finish_manual_block, (h, a, until_ms, handle), former),
    ensures
        match r {
            Ok((x, until)) => parse::ip_of(ip@) == Some(x) && until == hand_block_end(minutes, now),
            Err(e) => parse::ip_of(ip@) is None && e@ == "invalid IP"@,
        },
        former == (if old(h)@.enforced.contains_key(a) {
            Some(old(h)@.enforced[a].0)
        } else {
            None
        }),
        final(h)@.enforced == old(h)@.enforced.insert(a, (handle, until_ms)),
        final(h)@.engine.blocked == old(h)@.engine.blocked.insert(
            a,
            BlockEntry { until_ms, reason: BlockReason::Manual },
        ),
        final(h)@.engine.cfg == old(h)@.engine.cfg,
        final(h)@.engine.whitelist == old(h)@.engine.whitelist,
        final(h)@.metrics == old(h)@.metrics,
        final(h)@.talkers == old(h)@.talkers,
{
}

/// A verdict is a block or lets pass.
pub proof fn verdicts_block_or_pass(v: Verdict, r: bool)
    requires
        call_ensures(Verdict::is_block, (&v,), r),
    ensures
        r <==> v != Verdict::Pass,
{
}

} // verus!
