//! The aggregation pipeline that turns engine and metrics state into the
//! per-second payload that the dashboard shows.

use vstd::prelude::*;
use vstd::string::*;

use crate::detect::BlockReason;
use crate::history;
use crate::history::Step;
use crate::ip::IpAddr;
use crate::metrics::BucketOut;
use crate::rank;
use crate::rank::Descending;
use crate::window;
use crate::window::Windows;

verus! {

/// Rolling top-talkers tracker: counts events per source within a window.
pub struct Talkers {
    window_ms: u64,
    hits: Windows<u64>,
}

/// The state of the tracker: the stamps of each source's events, oldest first.
#[verifier::ext_equal]
pub struct TalkersModel {
    pub window_ms: u64,
    pub hits: Map<IpAddr, Seq<u64>>,
}

impl View for Talkers {
    type V = TalkersModel;

    closed spec fn view(&self) -> TalkersModel {
        TalkersModel { window_ms: self.window_ms, hits: self.hits@ }
    }
}

impl TalkersModel {
    /// A tracker that has counted nothing; a window of zero counts as one.
    pub open spec fn fresh(window_ms: u64) -> TalkersModel {
        TalkersModel {
            window_ms: if window_ms == 0 {
                1
            } else {
                window_ms
            },
            hits: Map::empty(),
        }
    }

    /// The state with one more event of a source.
    pub open spec fn recorded(self, ip: IpAddr, ts_ms: u64) -> TalkersModel {
        TalkersModel {
            hits: self.hits.insert(
                ip,
                window::extended(self.hits, ip, ts_ms, ts_ms, self.window_ms),
            ),
            ..self
        }
    }

    /// The state without what lies before the window that ends at `now`.
    pub open spec fn cleaned(self, now: u64) -> TalkersModel {
        TalkersModel { hits: window::pruned(self.hits, now, self.window_ms), ..self }
    }

    /// The volume of one source.
    pub open spec fn volume(self, ip: IpAddr) -> nat {
        window::low32(self.hits[ip].len())
    }

    /// `order` lists every source once, by falling volume.
    pub open spec fn by_volume(self, order: Seq<IpAddr>) -> bool {
        &&& order.no_duplicates()
        &&& order.to_set() == self.hits.dom()
        &&& forall|i: int, j: int|
            0 <= i < j < order.len() ==> self.volume(#[trigger] order[i]) >= self.volume(
                #[trigger] order[j],
            )
    }

    /// `t` is the line for `ip`.
    pub open spec fn shows(self, t: TalkerOut, ip: IpAddr, flagged: Seq<IpAddr>) -> bool {
        &&& t.ip@ == ip.text()
        &&& t.n == self.volume(ip)
        &&& t.flag == flagged.contains(ip)
    }

    /// `list` shows the first `n` sources of some order by falling volume.
    pub open spec fn is_top(self, list: Seq<TalkerOut>, n: nat, flagged: Seq<IpAddr>) -> bool {
        exists|order: Seq<IpAddr>| #[trigger]
            self.by_volume(order) && list.len() == (if n < order.len() {
                n
            } else {
                order.len()
            }) && forall|i: int|
                0 <= i < list.len() ==> self.shows(#[trigger] list[i], order[i], flagged)
    }
}

fn contains_ip(list: &[IpAddr], ip: &IpAddr) -> (r: bool)
    ensures
        r == list@.contains(*ip),
{
    let mut i: usize = 0;
    while i < list.len()
        invariant
            i <= list@.len(),
            forall|j: int| 0 <= j < i ==> list@[j] != *ip,
        decreases list@.len() - i,
    {
        if list[i] == *ip {
            return true;
        }
        i = i + 1;
    }
    false
}

impl Talkers {
    /// A tracker with a window of `window_ms` milliseconds; zero counts as one.
    pub fn new(window_ms: u64) -> (r: Self)
        ensures
            r@ == TalkersModel::fresh(window_ms),
    {
        Talkers {
            window_ms: if window_ms == 0 {
                1
            } else {
                window_ms
            },
            hits: Windows::new(),
        }
    }

    /// Counts one event of `ip`.
    pub fn record(&mut self, ip: IpAddr, ts_ms: u64)
        ensures
            final(self)@ == old(self)@.recorded(ip, ts_ms),
    {
        let w: u64 = self.window_ms;
        self.hits.record(ip, ts_ms, ts_ms, w);
    }

    /// Forgets what lies before the window that ends at `now`.
    pub fn cleanup(&mut self, now: u64)
        ensures
            final(self)@ == old(self)@.cleaned(now),
    {
        let w: u64 = self.window_ms;
        self.hits.prune(now, w);
    }

    /// The top `n` sources by volume. `flagged` marks sources currently blocked.
    pub fn top(&self, n: usize, flagged: &[IpAddr]) -> (r: Vec<TalkerOut>)
        ensures
            self@.is_top(r@, n as nat, flagged@),
    {
        let ips: Vec<IpAddr> = self.hits.sources();
        let mut keys: Vec<Descending> = Vec::new();
        let mut i: usize = 0;
        while i < ips.len()
            invariant
                i <= ips@.len(),
                ips@.to_set() == self@.hits.dom(),
                keys@.len() == i,
                forall|j: int|
                    0 <= j < i ==> (#[trigger] keys@[j]).value == self@.volume(ips@[j]),
            decreases ips@.len() - i,
        {
            proof {
                assert(ips@.to_set().contains(ips@[i as int]));
            }
            let count: usize = match self.hits.get(&ips[i]) {
                Some(dq) => dq.len(),
                None => 0,
            };
            keys.push(Descending { value: window::low32_of(count) as u64 });
            i = i + 1;
        }
        let order: Vec<usize> = rank::ranking(&keys);
        let ghost ranked = Seq::new(order@.len(), |j: int| ips@[order@[j] as int]);
        proof {
            self.lemma_by_volume(ips@, keys@, order@);
        }
        let mut out: Vec<TalkerOut> = Vec::new();
        let mut k: usize = 0;
        while k < order.len() && k < n
            invariant
                k <= order@.len(),
                k <= n,
                rank::is_ranking(keys@, order@),
                keys@.len() == ips@.len(),
                ips@.to_set() == self@.hits.dom(),
                forall|j: int|
                    0 <= j < keys@.len() ==> (#[trigger] keys@[j]).value == self@.volume(ips@[j]),
                out@.len() == k,
                ranked == Seq::new(order@.len(), |j: int| ips@[order@[j] as int]),
                forall|j: int|
                    0 <= j < k ==> self@.shows(#[trigger] out@[j], ranked[j], flagged@),
            decreases order@.len() - k,
        {
            let p: usize = order[k];
            let ip: IpAddr = ips[p];
            out.push(
                TalkerOut {
                    ip: ip.to_string(),
                    n: keys[p].value as u32,
                    flag: contains_ip(flagged, &ip),
                },
            );
            k = k + 1;
        }
        proof {
            assert(self@.by_volume(ranked));
        }
        out
    }

    proof fn lemma_by_volume(&self, ips: Seq<IpAddr>, keys: Seq<Descending>, order: Seq<usize>)
        requires
            ips.no_duplicates(),
            ips.to_set() == self@.hits.dom(),
            keys.len() == ips.len() <= usize::MAX,
            forall|j: int|
                0 <= j < keys.len() ==> (#[trigger] keys[j]).value == self@.volume(ips[j]),
            rank::is_ranking(keys, order),
        ensures
            self@.by_volume(Seq::new(order.len(), |j: int| ips[order[j] as int])),
    {
        let ranked = Seq::new(order.len(), |j: int| ips[order[j] as int]);
        assert forall|i: int, j: int| 0 <= i < j < ranked.len() implies self@.volume(
            #[trigger] ranked[i],
        ) >= self@.volume(#[trigger] ranked[j]) by {
            assert(rank::precedes(keys, order[i] as int, order[j] as int));
        }
        assert forall|i: int, j: int|
            0 <= i < ranked.len() && 0 <= j < ranked.len() && i != j implies ranked[i]
            != ranked[j] by {
            assert(order[i] != order[j]);
        }
        assert forall|ip: IpAddr| self@.hits.dom().contains(ip) implies ranked.to_set().contains(
            ip,
        ) by {
            assert(ips.to_set().contains(ip));
            let p = choose|p: int| 0 <= p < ips.len() && ips[p] == ip;
            rank::lemma_ranking_covers(keys, order, p as usize);
            let k = choose|k: int| 0 <= k < order.len() && order[k] == p as usize;
            assert(ranked[k] == ip);
        }
        assert forall|ip: IpAddr| ranked.to_set().contains(ip) implies self@.hits.dom().contains(
            ip,
        ) by {
            let k = choose|k: int| 0 <= k < ranked.len() && ranked[k] == ip;
            assert(ips.to_set().contains(ips[order[k] as int]));
        }
        assert(ranked.to_set() =~= self@.hits.dom());
    }
}

#[derive(Debug, Clone, PartialEq, Eq)]
pub struct TalkerOut {
    pub ip: String,
    pub n: u32,
    pub flag: bool,
}

#[derive(Debug, Clone, PartialEq, Eq)]
pub struct BlockOut {
    pub ip: String,
    pub reason: String,
    pub ttl: u64,
}

/// What the dashboard shows each second.
#[derive(Debug, Clone, PartialEq, Eq)]
pub struct TickPayload {
    pub inbound: u32,
    pub outbound: u32,
    pub flood: u32,
    pub scan: u32,
    pub unique: u32,
    /// Percentage of dropped events, 0 to 100.
    pub drop: u32,
    pub blocks: Vec<BlockOut>,
    pub talkers: Vec<TalkerOut>,
}

/// The word for a block reason.
pub open spec fn reason_text(r: BlockReason) -> Seq<char> {
    match r {
        BlockReason::RateLimit => "flood"@,
        BlockReason::PortScan => "scan"@,
        BlockReason::Manual => "manual"@,
        BlockReason::Blocklist => "blocklist"@,
    }
}

/// The word for a block reason.
pub fn reason_str(r: BlockReason) -> (s: &'static str)
    ensures
        s@ == reason_text(r),
{
    match r {
        BlockReason::RateLimit => "flood",
        BlockReason::PortScan => "scan",
        BlockReason::Manual => "manual",
        BlockReason::Blocklist => "blocklist",
    }
}

/// The share of `blocked` in `events` as a whole percentage, at most 100, with
/// no events counted as one. Halves round up, except for 14.5, 28.5, 56.5 and
/// 57.5, which round down: as double-precision products they fall short of the
/// half.
pub open spec fn drop_percent_spec(blocked: u32, events: u32) -> int {
    let total: int = if events == 0 {
        1
    } else {
        events as int
    };
    let whole = 100 * blocked as int / total;
    let rest = 2 * (100 * blocked as int % total);
    let rounded = if rest > total || (rest == total && whole != 14 && whole != 28 && whole != 56
        && whole != 57) {
        whole + 1
    } else {
        whole
    };
    if rounded > 100 {
        100
    } else {
        rounded
    }
}

/// The share of `blocked` in `events` as a whole percentage, at most 100.
pub fn drop_percent(blocked: u32, events: u32) -> (r: u32)
    ensures
        r == drop_percent_spec(blocked, events),
        r <= 100,
{
    let total: u64 = if events == 0 {
        1
    } else {
        events as u64
    };
    let scaled: u64 = 100 * blocked as u64;
    let whole: u64 = scaled / total;
    proof {
        vstd::arithmetic::div_mod::lemma_div_is_ordered_by_denominator(scaled as int, 1, total as int);
        vstd::arithmetic::div_mod::lemma_mod_bound(scaled as int, total as int);
        vstd::arithmetic::div_mod::lemma_div_pos_is_pos(scaled as int, total as int);
    }
    let rest: u64 = 2 * (scaled % total);
    let rounded: u64 = if rest > total || (rest == total && whole != 14 && whole != 28 && whole
        != 56 && whole != 57) {
        whole + 1
    } else {
        whole
    };
    if rounded > 100 {
        100
    } else {
        rounded as u32
    }
}

/// Whole seconds until a block ends.
pub open spec fn ttl_spec(until_ms: u64, now_ms: u64) -> u64 {
    if until_ms > now_ms {
        ((until_ms - now_ms) / 1000) as u64
    } else {
        0
    }
}

/// `b` is the line for a block.
pub open spec fn shows_block(
    b: BlockOut,
    entry: (IpAddr, u64, BlockReason),
    now_ms: u64,
) -> bool {
    &&& b.ip@ == entry.0.text()
    &&& b.reason@ == reason_text(entry.2)
    &&& b.ttl == ttl_spec(entry.1, now_ms)
}

/// The keys by which block lines are sorted: the longest remaining time first.
pub open spec fn ttl_keys(entries: Seq<(IpAddr, u64, BlockReason)>, now_ms: u64) -> Seq<
    Descending,
> {
    entries.map_values(
        |e: (IpAddr, u64, BlockReason)| Descending { value: ttl_spec(e.1, now_ms) },
    )
}

/// `blocks` shows all entries, the longest remaining time first and entries
/// with the same time in their given order.
pub open spec fn shows_blocks(
    blocks: Seq<BlockOut>,
    entries: Seq<(IpAddr, u64, BlockReason)>,
    now_ms: u64,
) -> bool {
    exists|order: Seq<usize>| #[trigger]
        rank::is_ranking(ttl_keys(entries, now_ms), order) && blocks.len() == order.len()
            && forall|i: int|
            0 <= i < blocks.len() ==> shows_block(
                #[trigger] blocks[i],
                entries[order[i] as int],
                now_ms,
            )
}

fn block_lines(entries: &[(IpAddr, u64, BlockReason)], now_ms: u64) -> (r: Vec<BlockOut>)
    ensures
        shows_blocks(r@, entries@, now_ms),
{
    let mut keys: Vec<Descending> = Vec::new();
    let mut i: usize = 0;
    while i < entries.len()
        invariant
            i <= entries@.len(),
            keys@ == ttl_keys(entries@, now_ms).take(i as int),
        decreases entries@.len() - i,
    {
        let until: u64 = entries[i].1;
        keys.push(Descending { value: until.saturating_sub(now_ms) / 1000 });
        i = i + 1;
        proof {
            assert(keys@ =~= ttl_keys(entries@, now_ms).take(i as int));
        }
    }
    proof {
        assert(keys@ =~= ttl_keys(entries@, now_ms));
    }
    let order: Vec<usize> = rank::ranking(&keys);
    let mut out: Vec<BlockOut> = Vec::new();
    let mut k: usize = 0;
    while k < order.len()
        invariant
            k <= order@.len(),
            keys@ == ttl_keys(entries@, now_ms),
            rank::is_ranking(keys@, order@),
            out@.len() == k,
            forall|j: int|
                0 <= j < k ==> shows_block(
                    #[trigger] out@[j],
                    entries@[order@[j] as int],
                    now_ms,
                ),
        decreases order@.len() - k,
    {
        let p: usize = order[k];
        out.push(
            BlockOut {
                ip: entries[p].0.to_string(),
                reason: reason_str(entries[p].2).to_owned(),
                ttl: keys[p].value,
            },
        );
        k = k + 1;
    }
    out
}

/// Builds one tick from the latest metrics bucket, the list of active blocks,
/// and the talkers tracker.
pub fn build_tick(
    bucket: Option<&BucketOut>,
    active_blocks: &[(IpAddr, u64, BlockReason)],
    talkers: &Talkers,
    now_ms: u64,
) -> (r: TickPayload)
    ensures
        ({
            let b = match bucket {
                Some(b) => *b,
                None => BucketOut::zero(),
            };
            &&& r.inbound == b.inbound
            &&& r.outbound == b.outbound
            &&& r.flood == b.ratelimit_blocks
            &&& r.scan == b.scan_blocks
            &&& r.unique == b.unique_ips
            &&& r.drop == drop_percent_spec(b.blocked, b.events)
        }),
        shows_blocks(r.blocks@, active_blocks@, now_ms),
        talkers@.is_top(
            r.talkers@,
            7,
            active_blocks@.map_values(|e: (IpAddr, u64, BlockReason)| e.0),
        ),
{
    let b: BucketOut = match bucket {
        Some(b) => *b,
        None => BucketOut::default(),
    };
    let mut flagged: Vec<IpAddr> = Vec::new();
    let mut i: usize = 0;
    while i < active_blocks.len()
        invariant
            i <= active_blocks@.len(),
            flagged@ == active_blocks@.take(i as int).map_values(
                |e: (IpAddr, u64, BlockReason)| e.0,
            ),
        decreases active_blocks@.len() - i,
    {
        flagged.push(active_blocks[i].0);
        i = i + 1;
        proof {
            assert(flagged@ =~= active_blocks@.take(i as int).map_values(
                |e: (IpAddr, u64, BlockReason)| e.0,
            ));
        }
    }
    proof {
        assert(active_blocks@.take(i as int) =~= active_blocks@);
    }
    TickPayload {
        inbound: b.inbound,
        outbound: b.outbound,
        flood: b.ratelimit_blocks,
        scan: b.scan_blocks,
        unique: b.unique_ips,
        drop: drop_percent(b.blocked, b.events),
        blocks: block_lines(active_blocks, now_ms),
        talkers: talkers.top(7, flagged.as_slice()),
    }
}

/// A source whose events all lie before the window is forgotten.
pub proof fn stale_talkers_are_forgotten(m: TalkersModel, now: u64, ip: IpAddr)
    requires
        forall|i: int|
            0 <= i < m.hits[ip].len() ==> window::stale(#[trigger] m.hits[ip][i], now, m.window_ms),
    ensures
        !m.cleaned(now).hits.contains_key(ip),
{
    window::lemma_live_none(m.hits[ip], now, m.window_ms);
}

/// The tracker after a run of records and cleanups.
pub open spec fn talkers_after(window_ms: u64, steps: Seq<Step<u64>>) -> TalkersModel
    decreases steps.len(),
{
    if steps.len() == 0 {
        TalkersModel::fresh(window_ms)
    } else {
        let m = talkers_after(window_ms, steps.drop_last());
        match steps.last() {
            Step::Seen { ip, item } => m.recorded(ip, item),
            Step::Tidied { now } => m.cleaned(now),
        }
    }
}

/// How often a source was recorded within the window that ends where it was last
/// brought up to date: at the last record of the source, or at the last cleanup
/// where that is later.
pub open spec fn recorded_lately(window_ms: u64, steps: Seq<Step<u64>>, ip: IpAddr) -> nat {
    history::recent(steps, ip, TalkersModel::fresh(window_ms).window_ms).len()
}

proof fn lemma_talkers_after(window_ms: u64, steps: Seq<Step<u64>>)
    ensures
        talkers_after(window_ms, steps).window_ms == TalkersModel::fresh(window_ms).window_ms,
        talkers_after(window_ms, steps).hits == history::run(
            steps,
            TalkersModel::fresh(window_ms).window_ms,
        ),
    decreases steps.len(),
{
    if steps.len() > 0 {
        lemma_talkers_after(window_ms, steps.drop_last());
    }
}

/// While time does not run backwards, the list of top talkers is right about all
/// that was ever recorded. A source is tracked as long as it was recorded lately.
/// The list has `n` lines, or one for each tracked source where there are fewer;
/// its lines are about different tracked sources, and each shows how often its
/// source was recorded lately (as far as the number can be shown) and whether it
/// is flagged. The numbers never rise along the list, and no tracked source that
/// is left out has a higher one.
pub proof fn top_talkers_over_a_run(
    window_ms: u64,
    steps: Seq<Step<u64>>,
    list: Seq<TalkerOut>,
    n: nat,
    flagged: Seq<IpAddr>,
)
    requires
        history::forward(steps),
        talkers_after(window_ms, steps).is_top(list, n, flagged),
    ensures
        ({
            let m = talkers_after(window_ms, steps);
            &&& forall|ip: IpAddr| #[trigger]
                m.hits.contains_key(ip) <==> recorded_lately(window_ms, steps, ip) > 0
            &&& m.hits.dom().finite()
            &&& list.len() == (if n < m.hits.dom().len() {
                n
            } else {
                m.hits.dom().len()
            })
            &&& forall|i: int, j: int|
                0 <= i < j < list.len() ==> (#[trigger] list[i]).n >= (#[trigger] list[j]).n
            &&& exists|ips: Seq<IpAddr>|
                {
                    &&& #[trigger] ips.no_duplicates()
                    &&& ips.len() == list.len()
                    &&& forall|i: int|
                        0 <= i < ips.len() ==> {
                            let count = recorded_lately(window_ms, steps, #[trigger] ips[i]);
                            &&& count > 0
                            &&& list[i].ip@ == ips[i].text()
                            &&& list[i].n == window::low32(count)
                            &&& count <= u32::MAX ==> list[i].n == count
                            &&& list[i].flag == flagged.contains(ips[i])
                        }
                    &&& forall|ip: IpAddr, i: int|
                        m.hits.contains_key(ip) && !ips.contains(ip) && 0 <= i < list.len()
                            ==> window::low32(#[trigger] recorded_lately(window_ms, steps, ip)) <= (
                        #[trigger] list[i]).n
                }
        }),
{
    let m = talkers_after(window_ms, steps);
    let width = TalkersModel::fresh(window_ms).window_ms;
    lemma_talkers_after(window_ms, steps);
    assert forall|ip: IpAddr| true implies #[trigger] m.hits.contains_key(ip) == (recorded_lately(
        window_ms,
        steps,
        ip,
    ) > 0) && (m.hits.contains_key(ip) ==> m.volume(ip) == window::low32(
        recorded_lately(window_ms, steps, ip),
    )) by {
        history::windows_hold_the_recent(steps, ip, width);
    }
    let order = choose|order: Seq<IpAddr>| #[trigger]
        m.by_volume(order) && list.len() == (if n < order.len() {
            n
        } else {
            order.len()
        }) && forall|i: int|
            0 <= i < list.len() ==> m.shows(#[trigger] list[i], order[i], flagged);
    order.unique_seq_to_set();
    vstd::seq_lib::seq_to_set_is_finite(order);
    let ips = order.take(list.len() as int);
    assert forall|i: int| 0 <= i < order.len() implies m.hits.contains_key(#[trigger] order[i]) by {
        assert(order.to_set().contains(order[i]));
    }
    assert forall|i: int, j: int| 0 <= i < j < list.len() implies (#[trigger] list[i]).n >= (
    #[trigger] list[j]).n by {
        assert(m.shows(list[i], order[i], flagged));
        assert(m.shows(list[j], order[j], flagged));
        assert(m.volume(order[i]) >= m.volume(order[j]));
    }
    assert(ips.no_duplicates());
    assert forall|i: int| 0 <= i < ips.len() implies {
        let count = recorded_lately(window_ms, steps, #[trigger] ips[i]);
        &&& count > 0
        &&& list[i].ip@ == ips[i].text()
        &&& list[i].n == window::low32(count)
        &&& count <= u32::MAX ==> list[i].n == count
        &&& list[i].flag == flagged.contains(ips[i])
    } by {
        assert(ips[i] == order[i]);
        assert(m.shows(list[i], order[i], flagged));
        assert(m.hits.contains_key(order[i]));
    }
    assert forall|ip: IpAddr, i: int|
        m.hits.contains_key(ip) && !ips.contains(ip) && 0 <= i < list.len() implies window::low32(
        #[trigger] recorded_lately(window_ms, steps, ip),
    ) <= (#[trigger] list[i]).n by {
        assert(order.to_set().contains(ip));
        let k = choose|k: int| 0 <= k < order.len() && order[k] == ip;
        if k < list.len() {
            assert(ips[k] == ip);
        }
        assert(m.shows(list[i], order[i], flagged));
        assert(m.volume(order[i]) >= m.volume(order[k]));
    }
}

/// The block with the longest remaining time comes first, and so on.
pub proof fn longest_block_comes_first(
    blocks: Seq<BlockOut>,
    entries: Seq<(IpAddr, u64, BlockReason)>,
    now_ms: u64,
    i: int,
    j: int,
)
    requires
        shows_blocks(blocks, entries, now_ms),
        0 <= i < j < blocks.len(),
    ensures
        blocks[i].ttl >= blocks[j].ttl,
{
    let keys = ttl_keys(entries, now_ms);
    let order = choose|order: Seq<usize>| #[trigger]
        rank::is_ranking(keys, order) && blocks.len() == order.len() && forall|i: int|
            0 <= i < blocks.len() ==> shows_block(
                #[trigger] blocks[i],
                entries[order[i] as int],
                now_ms,
            );
    let a = order[i] as int;
    let b = order[j] as int;
    assert(rank::precedes(keys, a, b));
    assert(shows_block(blocks[i], entries[a], now_ms));
    assert(shows_block(blocks[j], entries[b], now_ms));
    assert(keys[a].value == blocks[i].ttl);
    assert(keys[b].value == blocks[j].ttl);
}

/// Nothing dropped is no percent, everything dropped is all of it.
pub proof fn drop_percent_ends(events: u32)
    ensures
        drop_percent_spec(0, events) == 0,
        events > 0 ==> drop_percent_spec(events, events) == 100,
{
    if events > 0 {
        vstd::arithmetic::div_mod::lemma_fundamental_div_mod_converse(
            100 * events as int,
            events as int,
            100,
            0,
        );
        vstd::arithmetic::div_mod::lemma_fundamental_div_mod_converse(0, events as int, 0, 0);
    }
}

} // verus!
