//! Sliding windows of time-stamped observations, one per source address.

use std::collections::VecDeque;

use vstd::prelude::*;

use crate::ip::IpAddr;
use crate::ipmap::IpMap;

verus! {

/// An observation with a millisecond time stamp.
pub trait Stamped: Sized {
    spec fn stamp(self) -> u64;

    fn stamp_of(&self) -> (r: u64)
        ensures
            r == self.stamp(),
    ;
}

impl Stamped for u64 {
    open spec fn stamp(self) -> u64 {
        self
    }

    fn stamp_of(&self) -> (r: u64) {
        *self
    }
}

/// A connection attempt on a local port.
#[derive(Debug, Clone, Copy, PartialEq, Eq, Structural)]
pub struct Probe {
    pub ts_ms: u64,
    pub port: u16,
}

impl Stamped for Probe {
    open spec fn stamp(self) -> u64 {
        self.ts_ms
    }

    fn stamp_of(&self) -> (r: u64) {
        self.ts_ms
    }
}

/// Whether a stamp lies more than `window` milliseconds before `now`.
pub open spec fn stale(stamp: u64, now: u64, window: u64) -> bool {
    now - stamp > window
}

/// How many observations at the front are stale, up to the first that is not.
pub open spec fn stale_count<T: Stamped>(s: Seq<T>, now: u64, window: u64) -> nat
    decreases s.len(),
{
    if s.len() > 0 && stale(s[0].stamp(), now, window) {
        1 + stale_count(s.drop_first(), now, window)
    } else {
        0
    }
}

/// What is left of a history once the stale observations at its front are gone.
pub open spec fn live<T: Stamped>(s: Seq<T>, now: u64, window: u64) -> Seq<T> {
    s.skip(stale_count(s, now, window) as int)
}

/// The history of one source; a source that is not tracked has none.
pub open spec fn history<T>(m: Map<IpAddr, Seq<T>>, ip: IpAddr) -> Seq<T> {
    if m.contains_key(ip) {
        m[ip]
    } else {
        Seq::empty()
    }
}

/// The history of `ip` after `item` is added at the end and the front is trimmed.
pub open spec fn extended<T: Stamped>(
    m: Map<IpAddr, Seq<T>>,
    ip: IpAddr,
    item: T,
    now: u64,
    window: u64,
) -> Seq<T> {
    live(history(m, ip).push(item), now, window)
}

/// Every history trimmed, and the sources whose history is empty dropped.
pub open spec fn pruned<T: Stamped>(m: Map<IpAddr, Seq<T>>, now: u64, window: u64) -> Map<
    IpAddr,
    Seq<T>,
> {
    Map::new(
        |ip: IpAddr| m.contains_key(ip) && live(m[ip], now, window).len() > 0,
        |ip: IpAddr| live(m[ip], now, window),
    )
}

/// The low 32 bits of a count.
pub open spec fn low32(n: nat) -> nat {
    n % 0x1_0000_0000
}

/// The low 32 bits of a count.
pub fn low32_of(n: usize) -> (r: u32)
    ensures
        r == low32(n as nat),
{
    (n as u64 % 0x1_0000_0000) as u32
}

/// Drops the stale observations at the front of a history.
pub fn trim<T: Stamped>(dq: &mut VecDeque<T>, now: u64, window: u64)
    ensures
        final(dq)@ == live(old(dq)@, now, window),
{
    let ghost mut dropped: nat = 0;
    proof {
        assert(dq@.skip(0) =~= dq@);
    }
    while dq.len() > 0 && now.saturating_sub(dq[0].stamp_of()) > window
        invariant
            dropped <= old(dq)@.len(),
            dq@ == old(dq)@.skip(dropped as int),
            stale_count(old(dq)@, now, window) == dropped + stale_count(dq@, now, window),
        decreases dq@.len(),
    {
        let ghost before = dq@;
        let _ = dq.pop_front();
        proof {
            assert(dq@ =~= before.drop_first());
            assert(dq@ =~= old(dq)@.skip(dropped as int + 1));
            dropped = dropped + 1;
        }
    }
}

/// The histories of all tracked sources.
pub struct Windows<T> {
    table: IpMap<VecDeque<T>>,
}

impl<T> View for Windows<T> {
    type V = Map<IpAddr, Seq<T>>;

    closed spec fn view(&self) -> Map<IpAddr, Seq<T>> {
        self.table@.map_values(|dq: VecDeque<T>| dq@)
    }
}

impl<T: Stamped> Windows<T> {
    pub fn new() -> (r: Self)
        ensures
            r@ == Map::<IpAddr, Seq<T>>::empty(),
    {
        let r = Windows { table: IpMap::new() };
        proof {
            assert(r@ =~= Map::<IpAddr, Seq<T>>::empty());
        }
        r
    }

    /// Adds an observation of `ip` and trims its history.
    pub fn record(&mut self, ip: IpAddr, item: T, now: u64, window: u64)
        ensures
            final(self)@ == old(self)@.insert(ip, extended(old(self)@, ip, item, now, window)),
    {
        let mut dq: VecDeque<T> = match self.table.remove(&ip) {
            Some(dq) => dq,
            None => VecDeque::new(),
        };
        proof {
            assert(dq@ =~= history(old(self)@, ip));
        }
        dq.push_back(item);
        trim(&mut dq, now, window);
        let _ = self.table.insert(ip, dq);
        proof {
            assert(self@ =~= old(self)@.insert(ip, extended(old(self)@, ip, item, now, window)));
        }
    }

    /// The history of one source.
    pub fn get(&self, ip: &IpAddr) -> (r: Option<&VecDeque<T>>)
        ensures
            match r {
                Some(dq) => self@.contains_key(*ip) && dq@ == self@[*ip],
                None => !self@.contains_key(*ip),
            },
    {
        self.table.get(ip)
    }

    /// Trims every history and forgets the sources with nothing left.
    pub fn prune(&mut self, now: u64, window: u64)
        ensures
            final(self)@ == pruned(old(self)@, now, window),
    {
        let ips: Vec<IpAddr> = self.table.keys();
        proof {
            assert(self@.dom() =~= self.table@.dom());
        }
        let mut i: usize = 0;
        while i < ips.len()
            invariant
                i <= ips@.len(),
                ips@.no_duplicates(),
                ips@.to_set() == old(self)@.dom(),
                forall|j: int| i <= j < ips@.len() ==> self@.contains_key(#[trigger] ips@[j])
                    && self@[ips@[j]] == old(self)@[ips@[j]],
                forall|j: int|
                    0 <= j < i ==> {
                        let ip = #[trigger] ips@[j];
                        &&& self@.contains_key(ip) == pruned(old(self)@, now, window).contains_key(
                            ip,
                        )
                        &&& self@.contains_key(ip) ==> self@[ip] == live(
                            old(self)@[ip],
                            now,
                            window,
                        )
                    },
                forall|ip: IpAddr| #[trigger] self@.contains_key(ip) ==> old(self)@.contains_key(ip),
            decreases ips@.len() - i,
        {
            let ip: IpAddr = ips[i];
            let ghost before = self@;
            proof {
                assert(ips@.to_set().contains(ip));
            }
            if let Some(taken) = self.table.remove(&ip) {
                let mut dq: VecDeque<T> = taken;
                trim(&mut dq, now, window);
                proof {
                    assert(self@ =~= before.remove(ip));
                }
                if dq.len() > 0 {
                    let _ = self.table.insert(ip, dq);
                    proof {
                        assert(self@ =~= before.insert(ip, live(before[ip], now, window)));
                    }
                }
            }
            i = i + 1;
        }
        proof {
            assert forall|ip: IpAddr| old(self)@.contains_key(ip) implies exists|j: int|
                0 <= j < ips@.len() && ips@[j] == ip by {
                assert(ips@.to_set().contains(ip));
            }
            assert(self@ =~= pruned(old(self)@, now, window));
        }
    }

    /// The tracked sources, each once, in no particular order.
    pub fn sources(&self) -> (r: Vec<IpAddr>)
        ensures
            r@.no_duplicates(),
            r@.to_set() == self@.dom(),
            r@.len() == self@.dom().len(),
    {
        proof {
            assert(self@.dom() =~= self.table@.dom());
        }
        self.table.keys()
    }

    /// The number of tracked sources, capped at the largest machine integer.
    pub fn len(&self) -> (r: usize)
        ensures
            self@.dom().finite(),
            r == if self@.dom().len() <= usize::MAX {
                self@.dom().len()
            } else {
                usize::MAX as nat
            },
    {
        proof {
            assert(self@.dom() =~= self.table@.dom());
        }
        self.table.len()
    }
}

/// Stamps never decrease from front to back.
pub open spec fn in_order<T: Stamped>(s: Seq<T>) -> bool {
    forall|i: int, j: int|
        0 <= i <= j < s.len() ==> (#[trigger] s[i]).stamp() <= (#[trigger] s[j]).stamp()
}

pub proof fn lemma_stale_count_bound<T: Stamped>(s: Seq<T>, now: u64, window: u64)
    ensures
        stale_count(s, now, window) <= s.len(),
    decreases s.len(),
{
    if s.len() > 0 {
        lemma_stale_count_bound(s.drop_first(), now, window);
    }
}

/// The first observation of a trimmed history is not stale.
pub proof fn lemma_live_front<T: Stamped>(s: Seq<T>, now: u64, window: u64)
    ensures
        live(s, now, window).len() > 0 ==> !stale(live(s, now, window)[0].stamp(), now, window),
    decreases s.len(),
{
    lemma_stale_count_bound(s, now, window);
    if s.len() > 0 && stale(s[0].stamp(), now, window) {
        lemma_live_front(s.drop_first(), now, window);
        lemma_stale_count_bound(s.drop_first(), now, window);
        assert(live(s, now, window) =~= live(s.drop_first(), now, window));
    } else {
        assert(live(s, now, window) =~= s);
    }
}

/// Trimming early and then again later is trimming later.
pub proof fn lemma_live_of_live<T: Stamped>(s: Seq<T>, now: u64, later: u64, window: u64)
    requires
        now <= later,
    ensures
        live(live(s, now, window), later, window) == live(s, later, window),
    decreases s.len(),
{
    if s.len() > 0 && stale(s[0].stamp(), now, window) {
        let tail = s.drop_first();
        lemma_live_of_live(tail, now, later, window);
        lemma_stale_count_bound(tail, now, window);
        lemma_stale_count_bound(tail, later, window);
        assert(live(s, now, window) =~= live(tail, now, window));
        assert(live(s, later, window) =~= live(tail, later, window));
    } else {
        assert(live(s, now, window) =~= s);
    }
}

/// Trimming before an observation is added is lost in the trimming after it.
pub proof fn lemma_live_push<T: Stamped>(s: Seq<T>, x: T, now: u64, later: u64, window: u64)
    requires
        now <= later,
    ensures
        live(live(s, now, window).push(x), later, window) == live(s.push(x), later, window),
    decreases s.len(),
{
    if s.len() > 0 && stale(s[0].stamp(), now, window) {
        let tail = s.drop_first();
        lemma_live_push(tail, x, now, later, window);
        lemma_stale_count_bound(tail, now, window);
        lemma_stale_count_bound(tail.push(x), later, window);
        assert(live(s, now, window) =~= live(tail, now, window));
        assert(s.push(x).drop_first() =~= tail.push(x));
        assert(s.push(x)[0] == s[0]);
        assert(live(s.push(x), later, window) =~= live(tail.push(x), later, window));
    } else {
        assert(live(s, now, window) =~= s);
    }
}

/// A history whose every observation is stale is trimmed to nothing.
pub proof fn lemma_live_none<T: Stamped>(s: Seq<T>, now: u64, window: u64)
    requires
        forall|i: int| 0 <= i < s.len() ==> stale((#[trigger] s[i]).stamp(), now, window),
    ensures
        live(s, now, window) == Seq::<T>::empty(),
    decreases s.len(),
{
    if s.len() > 0 {
        let tail = s.drop_first();
        assert forall|i: int| 0 <= i < tail.len() implies stale(
            (#[trigger] tail[i]).stamp(),
            now,
            window,
        ) by {
            assert(tail[i] == s[i + 1]);
        }
        lemma_live_none(tail, now, window);
        lemma_stale_count_bound(tail, now, window);
        assert(live(s, now, window) =~= live(tail, now, window));
    } else {
        assert(live(s, now, window) =~= s);
    }
}

/// Trimming keeps an orderly history orderly, and leaves exactly the
/// observations that are not stale.
pub proof fn lemma_live_in_order<T: Stamped>(s: Seq<T>, now: u64, window: u64)
    requires
        in_order(s),
    ensures
        in_order(live(s, now, window)),
        live(s, now, window) == s.filter(|x: T| !stale(x.stamp(), now, window)),
    decreases s.len(),
{
    let fresh = |x: T| !stale(x.stamp(), now, window);
    lemma_stale_count_bound(s, now, window);
    if s.len() > 0 && stale(s[0].stamp(), now, window) {
        let tail = s.drop_first();
        assert forall|i: int, j: int| 0 <= i <= j < tail.len() implies (
        #[trigger] tail[i]).stamp() <= (#[trigger] tail[j]).stamp() by {
            assert(tail[i] == s[i + 1] && tail[j] == s[j + 1]);
        }
        lemma_live_in_order(tail, now, window);
        lemma_stale_count_bound(tail, now, window);
        assert(live(s, now, window) =~= live(tail, now, window));
        assert(s =~= seq![s[0]] + tail);
        Seq::filter_distributes_over_add(seq![s[0]], tail, fresh);
        reveal_with_fuel(Seq::filter, 2);
        assert(seq![s[0]].drop_last() =~= Seq::<T>::empty());
        assert(seq![s[0]].filter(fresh) =~= Seq::<T>::empty());
        assert(Seq::<T>::empty() + tail.filter(fresh) =~= tail.filter(fresh));
    } else {
        assert(live(s, now, window) =~= s);
        assert forall|i: int| 0 <= i < s.len() implies fresh(#[trigger] s[i]) by {
            assert(s[0].stamp() <= s[i].stamp());
        }
        lemma_filter_all(s, fresh);
    }
}

/// A filter that every element passes changes nothing.
pub proof fn lemma_filter_all<T>(s: Seq<T>, pred: spec_fn(T) -> bool)
    requires
        forall|i: int| 0 <= i < s.len() ==> pred(#[trigger] s[i]),
    ensures
        s.filter(pred) == s,
    decreases s.len(),
{
    reveal(Seq::filter);
    if s.len() > 0 {
        lemma_filter_all(s.drop_last(), pred);
        assert(s.drop_last().push(s.last()) =~= s);
    }
}

/// The history of a source after every history was trimmed.
pub proof fn lemma_history_pruned<T: Stamped>(
    m: Map<IpAddr, Seq<T>>,
    ip: IpAddr,
    now: u64,
    window: u64,
)
    ensures
        history(pruned(m, now, window), ip) == live(
            history(m, ip),
            now,
            window,
        ),
{
    let h = history(m, ip);
    lemma_stale_count_bound(h, now, window);
    assert(history(pruned(m, now, window), ip) =~= live(h, now, window));
}

/// A last observation that is not stale survives trimming.
pub proof fn lemma_live_keeps_last<T: Stamped>(s: Seq<T>, now: u64, window: u64)
    requires
        s.len() > 0,
        !stale(s.last().stamp(), now, window),
    ensures
        live(s, now, window).len() > 0,
        live(s, now, window).last() == s.last(),
    decreases s.len(),
{
    lemma_stale_count_bound(s, now, window);
    if stale(s[0].stamp(), now, window) {
        let tail = s.drop_first();
        assert(tail.len() > 0 && tail.last() == s.last());
        lemma_live_keeps_last(tail, now, window);
        lemma_stale_count_bound(tail, now, window);
        assert(live(s, now, window) =~= live(tail, now, window));
    } else {
        assert(live(s, now, window) =~= s);
    }
}

} // verus!
