//! What the windows hold of everything that was observed since the start.

use vstd::prelude::*;

use crate::ip::IpAddr;
use crate::window;
use crate::window::Stamped;

verus! {

/// What is done to the windows of all sources.
pub enum Step<T> {
    /// An observation of a source is added, at its own time.
    Seen { ip: IpAddr, item: T },
    /// Every window is trimmed.
    Tidied { now: u64 },
}

impl<T: Stamped> Step<T> {
    /// When the step is taken.
    pub open spec fn time(self) -> u64 {
        match self {
            Step::Seen { item, .. } => item.stamp(),
            Step::Tidied { now } => now,
        }
    }
}

/// The windows after one more step.
pub open spec fn stepped<T: Stamped>(
    m: Map<IpAddr, Seq<T>>,
    step: Step<T>,
    width: u64,
) -> Map<IpAddr, Seq<T>> {
    match step {
        Step::Seen { ip, item } => m.insert(
            ip,
            window::extended(m, ip, item, item.stamp(), width),
        ),
        Step::Tidied { now } => window::pruned(m, now, width),
    }
}

/// The windows after all steps, starting with nothing.
pub open spec fn run<T: Stamped>(steps: Seq<Step<T>>, width: u64) -> Map<IpAddr, Seq<T>>
    decreases steps.len(),
{
    if steps.len() == 0 {
        Map::empty()
    } else {
        stepped(run(steps.drop_last(), width), steps.last(), width)
    }
}

/// Time does not run backwards.
pub open spec fn forward<T: Stamped>(steps: Seq<Step<T>>) -> bool {
    forall|i: int, j: int|
        0 <= i <= j < steps.len() ==> (#[trigger] steps[i]).time() <= (#[trigger] steps[j]).time()
}

/// All that was ever observed of a source, oldest first.
pub open spec fn observed<T>(steps: Seq<Step<T>>, ip: IpAddr) -> Seq<T>
    decreases steps.len(),
{
    if steps.len() == 0 {
        Seq::empty()
    } else {
        match steps.last() {
            Step::Seen { ip: source, item } if source == ip => observed(
                steps.drop_last(),
                ip,
            ).push(item),
            _ => observed(steps.drop_last(), ip),
        }
    }
}

/// When the window of a source was last brought up to date: at the last
/// observation of the source, or at the last trimming where that is later.
pub open spec fn settled<T: Stamped>(steps: Seq<Step<T>>, ip: IpAddr) -> u64
    decreases steps.len(),
{
    if steps.len() == 0 {
        0
    } else {
        match steps.last() {
            Step::Seen { ip: source, .. } if source != ip => settled(steps.drop_last(), ip),
            step => step.time(),
        }
    }
}

/// The observations of a source that lie in its window.
pub open spec fn recent<T: Stamped>(steps: Seq<Step<T>>, ip: IpAddr, width: u64) -> Seq<T> {
    observed(steps, ip).filter(|x: T| settled(steps, ip) - x.stamp() <= width)
}

proof fn lemma_forward_front<T: Stamped>(steps: Seq<Step<T>>)
    requires
        forward(steps),
        steps.len() > 0,
    ensures
        forward(steps.drop_last()),
{
    let front = steps.drop_last();
    assert forall|i: int, j: int| 0 <= i <= j < front.len() implies (#[trigger] front[i]).time()
        <= (#[trigger] front[j]).time() by {
        assert(front[i] == steps[i] && front[j] == steps[j]);
    }
}

/// What was observed is in order, and the window was not brought up to date
/// after the last step.
proof fn lemma_observed_in_order<T: Stamped>(steps: Seq<Step<T>>, ip: IpAddr)
    requires
        forward(steps),
    ensures
        window::in_order(observed(steps, ip)),
        observed(steps, ip).len() > 0 ==> observed(steps, ip).last().stamp() <= settled(steps, ip),
        steps.len() > 0 ==> settled(steps, ip) <= steps.last().time(),
        steps.len() == 0 ==> settled(steps, ip) == 0,
    decreases steps.len(),
{
    if steps.len() > 0 {
        let front = steps.drop_last();
        lemma_forward_front(steps);
        lemma_observed_in_order(front, ip);
        if front.len() > 0 {
            assert(steps[front.len() - 1].time() <= steps[steps.len() - 1].time());
            assert(front.last() == steps[front.len() - 1]);
        }
        let h = observed(front, ip);
        let s = observed(steps, ip);
        assert forall|i: int, j: int| 0 <= i <= j < s.len() implies (#[trigger] s[i]).stamp() <= (
        #[trigger] s[j]).stamp() by {
            if j == h.len() && i < j {
                assert(h[i].stamp() <= h[h.len() - 1].stamp());
            }
        }
    }
}

proof fn lemma_run_is_live<T: Stamped>(steps: Seq<Step<T>>, ip: IpAddr, width: u64)
    requires
        forward(steps),
    ensures
        window::history(run(steps, width), ip) == window::live(
            observed(steps, ip),
            settled(steps, ip),
            width,
        ),
        run(steps, width).contains_key(ip) ==> run(steps, width)[ip].len() > 0,
    decreases steps.len(),
{
    if steps.len() == 0 {
        window::lemma_stale_count_bound(observed(steps, ip), 0, width);
        assert(window::live(observed(steps, ip), settled(steps, ip), width) =~= Seq::<T>::empty());
    } else {
        let front = steps.drop_last();
        let m = run(front, width);
        let h = observed(front, ip);
        let t = settled(front, ip);
        lemma_forward_front(steps);
        lemma_run_is_live(front, ip, width);
        lemma_observed_in_order(front, ip);
        if front.len() > 0 {
            assert(steps[front.len() - 1].time() <= steps[steps.len() - 1].time());
            assert(front.last() == steps[front.len() - 1]);
        }
        match steps.last() {
            Step::Seen { ip: source, item } => {
                if source == ip {
                    window::lemma_live_push(h, item, t, item.stamp(), width);
                    window::lemma_live_keeps_last(h.push(item), item.stamp(), width);
                }
            },
            Step::Tidied { now } => {
                window::lemma_live_of_live(h, t, now, width);
                window::lemma_history_pruned(m, ip, now, width);
            },
        }
    }
}

/// While time does not run backwards, the window of a source holds exactly the
/// recent ones of all observations that were ever made of it, and the sources
/// with recent observations are exactly those that are tracked.
pub proof fn windows_hold_the_recent<T: Stamped>(steps: Seq<Step<T>>, ip: IpAddr, width: u64)
    requires
        forward(steps),
    ensures
        window::history(run(steps, width), ip) == recent(steps, ip, width),
        run(steps, width).contains_key(ip) <==> recent(steps, ip, width).len() > 0,
{
    lemma_run_is_live(steps, ip, width);
    lemma_observed_in_order(steps, ip);
    window::lemma_live_in_order(observed(steps, ip), settled(steps, ip), width);
    assert((|x: T| !window::stale(x.stamp(), settled(steps, ip), width)) =~= (|x: T|
        settled(steps, ip) - x.stamp() <= width));
}

/// Filtering twice is filtering by both.
pub proof fn lemma_filter_filter<A>(s: Seq<A>, p: spec_fn(A) -> bool, q: spec_fn(A) -> bool)
    ensures
        s.filter(p).filter(q) == s.filter(|a: A| p(a) && q(a)),
    decreases s.len(),
{
    reveal(Seq::filter);
    if s.len() > 0 {
        lemma_filter_filter(s.drop_last(), p, q);
        let f = s.drop_last().filter(p);
        assert(f.push(s.last()).drop_last() =~= f);
    }
}

/// Filtering what was mapped is mapping what was filtered.
pub proof fn lemma_map_filter<A, B>(s: Seq<A>, f: spec_fn(A) -> B, q: spec_fn(B) -> bool)
    ensures
        s.map_values(f).filter(q) == s.filter(|a: A| q(f(a))).map_values(f),
    decreases s.len(),
{
    reveal(Seq::filter);
    if s.len() > 0 {
        let front = s.drop_last();
        lemma_map_filter(front, f, q);
        assert(s.map_values(f).drop_last() =~= front.map_values(f));
        let kept = front.filter(|a: A| q(f(a)));
        assert(kept.push(s.last()).map_values(f) =~= kept.map_values(f).push(f(s.last())));
    } else {
        assert(s.map_values(f).filter(q) =~= s.filter(|a: A| q(f(a))).map_values(f));
    }
}

} // verus!
