//! Stable ranking: the order in which a list of keys sorts.

use vstd::prelude::*;

verus! {

/// A key with a total preorder.
pub trait SortKey: Sized {
    /// `self` may stand before `other`.
    spec fn le(self, other: Self) -> bool;

    proof fn le_total(a: Self, b: Self)
        ensures
            a.le(b) || b.le(a),
    ;

    proof fn le_transitive(a: Self, b: Self, c: Self)
        requires
            a.le(b),
            b.le(c),
        ensures
            a.le(c),
    ;

    fn at_most(&self, other: &Self) -> (r: bool)
        ensures
            r == self.le(*other),
    ;
}

/// A number, the larger one first.
#[derive(Debug, Clone, Copy, PartialEq, Eq, Structural)]
pub struct Descending {
    pub value: u64,
}

impl SortKey for Descending {
    open spec fn le(self, other: Self) -> bool {
        self.value >= other.value
    }

    proof fn le_total(a: Self, b: Self) {
    }

    proof fn le_transitive(a: Self, b: Self, c: Self) {
    }

    fn at_most(&self, other: &Self) -> (r: bool) {
        self.value >= other.value
    }
}

/// Position `a` sorts before position `b`: by key, and by position where the
/// keys are level.
pub open spec fn precedes<K: SortKey>(keys: Seq<K>, a: int, b: int) -> bool {
    if a < b {
        keys[a].le(keys[b])
    } else {
        !keys[b].le(keys[a])
    }
}

/// `order` lists positions in sorted order.
pub open spec fn sorted<K: SortKey>(keys: Seq<K>, order: Seq<usize>) -> bool {
    forall|i: int, j: int|
        0 <= i < j < order.len() ==> precedes(
            keys,
            #[trigger] order[i] as int,
            #[trigger] order[j] as int,
        )
}

/// `order` is the stable sorted order of all positions of `keys`.
pub open spec fn is_ranking<K: SortKey>(keys: Seq<K>, order: Seq<usize>) -> bool {
    &&& order.len() == keys.len()
    &&& forall|i: int| 0 <= i < order.len() ==> (#[trigger] order[i]) < keys.len()
    &&& order.no_duplicates()
    &&& sorted(keys, order)
}

proof fn lemma_precedes_transitive<K: SortKey>(keys: Seq<K>, a: int, b: int, c: int)
    requires
        precedes(keys, a, b),
        precedes(keys, b, c),
    ensures
        precedes(keys, a, c),
{
    K::le_total(keys[a], keys[b]);
    K::le_total(keys[b], keys[c]);
    K::le_total(keys[a], keys[c]);
    if keys[a].le(keys[b]) && keys[b].le(keys[c]) {
        K::le_transitive(keys[a], keys[b], keys[c]);
    }
    if keys[c].le(keys[a]) {
        if keys[a].le(keys[b]) {
            K::le_transitive(keys[c], keys[a], keys[b]);
        }
        if keys[b].le(keys[c]) {
            K::le_transitive(keys[b], keys[c], keys[a]);
        }
    }
}

proof fn lemma_precedes_total<K: SortKey>(keys: Seq<K>, a: int, b: int)
    requires
        a != b,
    ensures
        precedes(keys, a, b) <==> !precedes(keys, b, a),
{
}

proof fn lemma_precedes_irreflexive<K: SortKey>(keys: Seq<K>, a: int)
    ensures
        !precedes(keys, a, a),
{
    K::le_total(keys[a], keys[a]);
}

/// Merges two sorted lists of positions.
fn merge<K: SortKey>(keys: &Vec<K>, left: &Vec<usize>, right: &Vec<usize>) -> (out: Vec<usize>)
    requires
        sorted(keys@, left@),
        sorted(keys@, right@),
        forall|i: int| 0 <= i < left@.len() ==> (#[trigger] left@[i]) < keys@.len(),
        forall|i: int| 0 <= i < right@.len() ==> (#[trigger] right@[i]) < keys@.len(),
        forall|i: int, j: int|
            0 <= i < left@.len() && 0 <= j < right@.len() ==> (#[trigger] left@[i]) < (
            #[trigger] right@[j]),
        left@.len() + right@.len() <= usize::MAX,
    ensures
        sorted(keys@, out@),
        out@.len() == left@.len() + right@.len(),
        forall|i: int|
            0 <= i < out@.len() ==> left@.contains(#[trigger] out@[i]) || right@.contains(out@[i]),
{
    let mut out: Vec<usize> = Vec::new();
    let mut i: usize = 0;
    let mut j: usize = 0;
    while i < left.len() || j < right.len()
        invariant
            sorted(keys@, left@),
            sorted(keys@, right@),
            forall|k: int| 0 <= k < left@.len() ==> (#[trigger] left@[k]) < keys@.len(),
            forall|k: int| 0 <= k < right@.len() ==> (#[trigger] right@[k]) < keys@.len(),
            forall|k: int, l: int|
                0 <= k < left@.len() && 0 <= l < right@.len() ==> (#[trigger] left@[k]) < (
                #[trigger] right@[l]),
            left@.len() + right@.len() <= usize::MAX,
            i <= left@.len(),
            j <= right@.len(),
            out@.len() == i + j,
            sorted(keys@, out@),
            forall|k: int|
                0 <= k < out@.len() ==> left@.contains(#[trigger] out@[k]) || right@.contains(
                    out@[k],
                ),
            forall|k: int, l: int|
                0 <= k < out@.len() && i <= l < left@.len() ==> precedes(
                    keys@,
                    #[trigger] out@[k] as int,
                    #[trigger] left@[l] as int,
                ),
            forall|k: int, l: int|
                0 <= k < out@.len() && j <= l < right@.len() ==> precedes(
                    keys@,
                    #[trigger] out@[k] as int,
                    #[trigger] right@[l] as int,
                ),
        decreases left@.len() - i + right@.len() - j,
    {
        let take_left: bool = if i == left.len() {
            false
        } else if j == right.len() {
            true
        } else {
            keys[left[i]].at_most(&keys[right[j]])
        };
        let ghost before = out@;
        if take_left {
            let x: usize = left[i];
            out.push(x);
            proof {
                assert(left@.contains(x));
                assert forall|l: int| j <= l < right@.len() implies precedes(
                    keys@,
                    x as int,
                    #[trigger] right@[l] as int,
                ) by {
                    assert(x < right@[l]);
                    assert(precedes(keys@, x as int, right@[j as int] as int));
                    if l > j {
                        lemma_precedes_transitive(
                            keys@,
                            x as int,
                            right@[j as int] as int,
                            right@[l] as int,
                        );
                    }
                }
            }
            i = i + 1;
        } else {
            let x: usize = right[j];
            out.push(x);
            proof {
                assert(right@.contains(x));
                assert forall|l: int| i <= l < left@.len() implies precedes(
                    keys@,
                    x as int,
                    #[trigger] left@[l] as int,
                ) by {
                    assert(left@[l] < x);
                    assert(left@[i as int] < x);
                    assert(precedes(keys@, x as int, left@[i as int] as int));
                    if l > i {
                        lemma_precedes_transitive(
                            keys@,
                            x as int,
                            left@[i as int] as int,
                            left@[l] as int,
                        );
                    }
                }
            }
            j = j + 1;
        }
        proof {
            assert forall|k: int, l: int| 0 <= k < l < out@.len() implies precedes(
                keys@,
                #[trigger] out@[k] as int,
                #[trigger] out@[l] as int,
            ) by {
                if l < before.len() {
                    assert(before[k] == out@[k] && before[l] == out@[l]);
                }
            }
        }
    }
    out
}

fn rank_between<K: SortKey>(keys: &Vec<K>, from: usize, to: usize) -> (out: Vec<usize>)
    requires
        from <= to <= keys@.len(),
    ensures
        sorted(keys@, out@),
        out@.len() == to - from,
        forall|i: int| 0 <= i < out@.len() ==> from <= #[trigger] out@[i] < to,
    decreases to - from,
{
    let mut out: Vec<usize> = Vec::new();
    if to - from == 0 {
        return out;
    }
    if to - from == 1 {
        out.push(from);
        return out;
    }
    let mid: usize = from + (to - from) / 2;
    let left: Vec<usize> = rank_between(keys, from, mid);
    let right: Vec<usize> = rank_between(keys, mid, to);
    merge(keys, &left, &right)
}

/// The stable sorted order of all positions of `keys`.
pub fn ranking<K: SortKey>(keys: &Vec<K>) -> (out: Vec<usize>)
    ensures
        is_ranking(keys@, out@),
{
    let out: Vec<usize> = rank_between(keys, 0, keys.len());
    proof {
        assert forall|i: int, j: int| 0 <= i < j < out@.len() implies out@[i] != out@[j] by {
            lemma_precedes_irreflexive(keys@, out@[i] as int);
            assert(precedes(keys@, out@[i] as int, out@[j] as int));
        }
        assert(out@.no_duplicates());
    }
    out
}

/// A ranking names every position.
pub proof fn lemma_ranking_covers<K: SortKey>(keys: Seq<K>, order: Seq<usize>, p: usize)
    requires
        is_ranking(keys, order),
        p < keys.len(),
    ensures
        order.contains(p),
{
    let ints = order.map_values(|x: usize| x as int);
    assert(ints.no_duplicates()) by {
        assert forall|i: int, j: int| 0 <= i < ints.len() && 0 <= j < ints.len() && i != j implies ints[i]
            != ints[j] by {
            assert(order[i] != order[j]);
        }
    }
    ints.unique_seq_to_set();
    let all = vstd::set_lib::set_int_range(0, keys.len() as int);
    vstd::set_lib::lemma_int_range(0, keys.len() as int);
    assert(ints.to_set().subset_of(all)) by {
        assert forall|x: int| ints.to_set().contains(x) implies all.contains(x) by {
            let i = choose|i: int| 0 <= i < ints.len() && ints[i] == x;
            assert(order[i] < keys.len());
        }
    }
    vstd::set_lib::lemma_subset_equality(ints.to_set(), all);
    assert(ints.to_set().contains(p as int));
    let i = choose|i: int| 0 <= i < ints.len() && ints[i] == p as int;
    assert(order[i] == p);
}

/// There is only one ranking.
pub proof fn ranking_is_unique<K: SortKey>(keys: Seq<K>, a: Seq<usize>, b: Seq<usize>)
    requires
        is_ranking(keys, a),
        is_ranking(keys, b),
    ensures
        a == b,
{
    lemma_rankings_agree(keys, a, b, a.len() as int);
    assert(a =~= b);
}

proof fn lemma_rankings_agree<K: SortKey>(keys: Seq<K>, a: Seq<usize>, b: Seq<usize>, n: int)
    requires
        is_ranking(keys, a),
        is_ranking(keys, b),
        0 <= n <= a.len(),
    ensures
        forall|i: int| 0 <= i < n ==> a[i] == b[i],
    decreases n,
{
    if n > 0 {
        lemma_rankings_agree(keys, a, b, n - 1);
        let m = n - 1;
        if a[m] != b[m] {
            lemma_ranking_covers(keys, b, a[m]);
            lemma_ranking_covers(keys, a, b[m]);
            let i = choose|i: int| 0 <= i < b.len() && b[i] == a[m];
            let j = choose|j: int| 0 <= j < a.len() && a[j] == b[m];
            if i < m {
                assert(a[i] == b[i]);
                assert(a[i] != a[m]);
            }
            if j < m {
                assert(b[j] == a[j]);
                assert(b[j] != b[m]);
            }
            assert(precedes(keys, b[m] as int, b[i] as int));
            assert(precedes(keys, a[m] as int, a[j] as int));
            lemma_precedes_total(keys, a[m] as int, b[m] as int);
        }
    }
}

} // verus!
