//! Reading numbers and IP addresses from text.

use vstd::prelude::*;
use vstd::string::*;

use crate::ip::{IpAddr, Ipv4Addr, Ipv6Addr};
use crate::text;

verus! {

/// The value of a digit in the given base.
pub open spec fn digit_value(c: char, base: nat) -> Option<nat> {
    let v: int = if '0' <= c && c <= '9' {
        c as int - '0' as int
    } else if 'a' <= c && c <= 'f' {
        c as int - 'a' as int + 10
    } else if 'A' <= c && c <= 'F' {
        c as int - 'A' as int + 10
    } else {
        99
    };
    if v < base {
        Some(v as nat)
    } else {
        None
    }
}

/// The number that a row of digits stands for.
pub open spec fn value_of(s: Seq<char>, base: nat) -> Option<nat>
    decreases s.len(),
{
    if s.len() == 0 {
        Some(0)
    } else {
        match (value_of(s.drop_last(), base), digit_value(s.last(), base)) {
            (Some(v), Some(d)) => Some(v * base + d),
            _ => None,
        }
    }
}

/// An octet: one to three decimal digits without a leading zero, at most 255.
pub open spec fn octet_of(s: Seq<char>) -> Option<nat> {
    match value_of(s, 10) {
        Some(v) if 1 <= s.len() <= 3 && v <= 255 && (s.len() > 1 ==> s[0] != '0') => Some(v),
        _ => None,
    }
}

/// A group: one to four hexadecimal digits.
pub open spec fn group_of(s: Seq<char>) -> Option<nat> {
    if 1 <= s.len() <= 4 {
        value_of(s, 16)
    } else {
        None
    }
}

/// The parts between the separators, one more than there are separators.
pub open spec fn pieces(s: Seq<char>, sep: char) -> Seq<Seq<char>>
    decreases s.len(),
{
    if s.len() == 0 {
        seq![Seq::empty()]
    } else {
        let p = pieces(s.drop_last(), sep);
        if s.last() == sep {
            p.push(Seq::empty())
        } else {
            p.drop_last().push(p.last().push(s.last()))
        }
    }
}

/// An IPv4 address in dotted decimal.
pub open spec fn v4_of(s: Seq<char>) -> Option<Ipv4Addr> {
    let p = pieces(s, '.');
    if p.len() == 4 {
        match (octet_of(p[0]), octet_of(p[1]), octet_of(p[2]), octet_of(p[3])) {
            (Some(a), Some(b), Some(c), Some(d)) => Some(
                Ipv4Addr { bits: (a * 0x100_0000 + b * 0x1_0000 + c * 0x100 + d) as u32 },
            ),
            _ => None,
        }
    } else {
        None
    }
}

/// The groups that a list of parts stands for. Where `embedded`, the last part
/// may be an IPv4 address, which stands for two groups.
pub open spec fn group_list(p: Seq<Seq<char>>, embedded: bool) -> Option<Seq<nat>>
    decreases p.len(),
{
    if p.len() == 0 {
        Some(Seq::empty())
    } else {
        match group_list(p.drop_last(), false) {
            None => None,
            Some(front) => match group_of(p.last()) {
                Some(g) => Some(front.push(g)),
                None => match v4_of(p.last()) {
                    Some(a) if embedded => Some(
                        front.push((a.bits / 0x1_0000) as nat).push((a.bits % 0x1_0000) as nat),
                    ),
                    _ => None,
                },
            },
        }
    }
}

/// The groups of a text without `::`.
pub open spec fn half_of(s: Seq<char>, embedded: bool) -> Option<Seq<nat>> {
    if s.len() == 0 {
        Some(Seq::empty())
    } else {
        group_list(pieces(s, ':'), embedded)
    }
}

/// Whether `::` stands at `i`.
pub open spec fn gap_at(s: Seq<char>, i: int) -> bool {
    0 <= i && i + 1 < s.len() && s[i] == ':' && s[i + 1] == ':'
}

/// The first place from `i` on where `::` stands.
pub open spec fn first_gap(s: Seq<char>, i: int) -> Option<int>
    decreases s.len() - i,
{
    if i < 0 || i + 1 >= s.len() {
        None
    } else if gap_at(s, i) {
        Some(i)
    } else {
        first_gap(s, i + 1)
    }
}

/// A row of zeros.
pub open spec fn zeros(n: nat) -> Seq<nat> {
    Seq::new(n, |i: int| 0nat)
}

/// The eight groups of an IPv6 address. One `::` stands for one or more groups
/// of zeros; the last two groups may be written as an IPv4 address.
pub open spec fn v6_groups(s: Seq<char>) -> Option<Seq<nat>> {
    match first_gap(s, 0) {
        Some(i) => match (half_of(s.take(i), false), half_of(s.skip(i + 2), true)) {
            (Some(h), Some(t)) if h.len() + t.len() <= 7 => Some(
                h + zeros((8 - h.len() - t.len()) as nat) + t,
            ),
            _ => None,
        },
        None => match half_of(s, true) {
            Some(g) if g.len() == 8 => Some(g),
            _ => None,
        },
    }
}

/// The number whose big-endian base-65536 digits are given.
pub open spec fn joined(g: Seq<nat>) -> nat
    decreases g.len(),
{
    if g.len() == 0 {
        0
    } else {
        joined(g.drop_last()) * 0x1_0000 + g.last()
    }
}

/// The IP address that a text stands for.
pub open spec fn ip_of(s: Seq<char>) -> Option<IpAddr> {
    match v4_of(s) {
        Some(a) => Some(IpAddr::V4(a)),
        None => match v6_groups(s) {
            Some(g) => Some(IpAddr::V6(Ipv6Addr { bits: joined(g) as u128 })),
            None => None,
        },
    }
}

/// A decimal number up to 255, with an optional plus sign in front.
pub open spec fn u8_of(s: Seq<char>) -> Option<u8> {
    let digits = if s.len() > 0 && s[0] == '+' {
        s.drop_first()
    } else {
        s
    };
    match value_of(digits, 10) {
        Some(v) if digits.len() > 0 && v <= 255 => Some(v as u8),
        _ => None,
    }
}

/// The text before and after the first separator.
pub open spec fn split_at_first(s: Seq<char>, sep: char) -> Option<(Seq<char>, Seq<char>)>
    decreases s.len(),
{
    if s.len() == 0 {
        None
    } else if s[0] == sep {
        Some((Seq::empty(), s.drop_first()))
    } else {
        match split_at_first(s.drop_first(), sep) {
            Some((a, b)) => Some((seq![s[0]] + a, b)),
            None => None,
        }
    }
}

fn digit_in(c: char, base: u32) -> (r: Option<u32>)
    requires
        base <= 16,
    ensures
        match r {
            Some(d) => digit_value(c, base as nat) == Some(d as nat),
            None => digit_value(c, base as nat) is None,
        },
        r matches Some(d) ==> d < base,
{
    let v: u32 = if '0' <= c && c <= '9' {
        c as u32 - '0' as u32
    } else if 'a' <= c && c <= 'f' {
        c as u32 - 'a' as u32 + 10
    } else if 'A' <= c && c <= 'F' {
        c as u32 - 'A' as u32 + 10
    } else {
        99
    };
    if v < base {
        Some(v)
    } else {
        None
    }
}

/// A text with a prefix that has no value has none itself.
proof fn lemma_no_value(s: Seq<char>, base: nat, i: int)
    requires
        0 <= i <= s.len(),
        value_of(s.take(i), base) is None,
    ensures
        value_of(s, base) is None,
    decreases s.len() - i,
{
    if i < s.len() {
        assert(s.take(i + 1).drop_last() =~= s.take(i));
        lemma_no_value(s, base, i + 1);
    } else {
        assert(s.take(i) =~= s);
    }
}

proof fn lemma_value_grows(s: Seq<char>, base: nat, i: int)
    requires
        0 <= i <= s.len(),
        base >= 1,
        value_of(s, base) is Some,
    ensures
        value_of(s.take(i), base) is Some,
        value_of(s.take(i), base)->0 <= value_of(s, base)->0,
    decreases s.len() - i,
{
    if i < s.len() {
        lemma_value_grows(s, base, i + 1);
        assert(s.take(i + 1).drop_last() =~= s.take(i));
        let v = value_of(s.take(i), base)->0;
        assert(v <= v * base) by (nonlinear_arith)
            requires
                base >= 1,
        ;
    } else {
        assert(s.take(i) =~= s);
    }
}

/// The value of `v[from..to]`, where it has one that is at most `limit`.
fn read_value(v: &Vec<char>, from: usize, to: usize, base: u32, limit: u32) -> (r: Option<u32>)
    requires
        from <= to <= v@.len(),
        2 <= base <= 16,
        limit <= 0xffff,
    ensures
        ({
            let value = value_of(v@.subrange(from as int, to as int), base as nat);
            match r {
                Some(n) => value == Some(n as nat) && n <= limit,
                None => value is None || value->0 > limit,
            }
        }),
{
    let ghost s = v@.subrange(from as int, to as int);
    let mut n: u32 = 0;
    let mut i: usize = from;
    proof {
        assert(s.take(0) =~= Seq::<char>::empty());
    }
    while i < to
        invariant
            from <= i <= to <= v@.len(),
            2 <= base <= 16,
            limit <= 0xffff,
            s == v@.subrange(from as int, to as int),
            n <= limit,
            value_of(s.take(i - from), base as nat) == Some(n as nat),
        decreases to - i,
    {
        proof {
            assert(s.take(i - from + 1).drop_last() =~= s.take(i - from));
            assert(s.take(i - from + 1).last() == v@[i as int]);
        }
        match digit_in(v[i], base) {
            None => {
                proof {
                    lemma_no_value(s, base as nat, i - from + 1);
                }
                return None;
            },
            Some(d) => {
                proof {
                    assert(n * base <= 0xffff * 16) by (nonlinear_arith)
                        requires
                            n <= 0xffff,
                            base <= 16,
                    ;
                }
                n = n * base + d;
                if n > limit {
                    proof {
                        if value_of(s, base as nat) is Some {
                            lemma_value_grows(s, base as nat, i - from + 1);
                        }
                    }
                    return None;
                }
            },
        }
        i = i + 1;
    }
    proof {
        assert(s.take(to - from) =~= s);
    }
    Some(n)
}

/// The places where the parts of `v[from..to]` begin and end.
fn cut(v: &Vec<char>, from: usize, to: usize, sep: char) -> (r: Vec<(usize, usize)>)
    requires
        from <= to <= v@.len(),
    ensures
        r@.len() == pieces(v@.subrange(from as int, to as int), sep).len(),
        r@.len() >= 1,
        forall|i: int|
            0 <= i < r@.len() ==> from <= (#[trigger] r@[i]).0 <= r@[i].1 <= to && v@.subrange(
                r@[i].0 as int,
                r@[i].1 as int,
            ) == pieces(v@.subrange(from as int, to as int), sep)[i],
{
    let ghost s = v@.subrange(from as int, to as int);
    let mut out: Vec<(usize, usize)> = Vec::new();
    let mut start: usize = from;
    let mut i: usize = from;
    proof {
        assert(s.take(0) =~= Seq::<char>::empty());
        assert(v@.subrange(from as int, from as int) =~= Seq::<char>::empty());
    }
    while i < to
        invariant
            from <= start <= i <= to <= v@.len(),
            s == v@.subrange(from as int, to as int),
            ({
                let p = pieces(s.take(i - from), sep);
                &&& p.len() == out@.len() + 1
                &&& p.last() == v@.subrange(start as int, i as int)
                &&& forall|j: int|
                    0 <= j < out@.len() ==> from <= (#[trigger] out@[j]).0 <= out@[j].1 <= to
                        && v@.subrange(out@[j].0 as int, out@[j].1 as int) == p[j]
            }),
        decreases to - i,
    {
        proof {
            assert(s.take(i - from + 1).drop_last() =~= s.take(i - from));
            assert(s.take(i - from + 1).last() == v@[i as int]);
            assert(v@.subrange(start as int, i + 1) =~= v@.subrange(start as int, i as int).push(
                v@[i as int],
            ));
            assert(v@.subrange(i + 1, i + 1) =~= Seq::<char>::empty());
        }
        if v[i] == sep {
            out.push((start, i));
            start = i + 1;
        }
        i = i + 1;
    }
    proof {
        assert(s.take(to - from) =~= s);
    }
    out.push((start, to));
    out
}

fn read_octet(v: &Vec<char>, from: usize, to: usize) -> (r: Option<u32>)
    requires
        from <= to <= v@.len(),
    ensures
        match r {
            Some(n) => octet_of(v@.subrange(from as int, to as int)) == Some(n as nat) && n <= 255,
            None => octet_of(v@.subrange(from as int, to as int)) is None,
        },
{
    let n: usize = to - from;
    if n == 0 || n > 3 || (n > 1 && v[from] == '0') {
        return None;
    }
    read_value(v, from, to, 10, 255)
}

fn read_v4(v: &Vec<char>, from: usize, to: usize) -> (r: Option<Ipv4Addr>)
    requires
        from <= to <= v@.len(),
    ensures
        r == v4_of(v@.subrange(from as int, to as int)),
{
    let p: Vec<(usize, usize)> = cut(v, from, to, '.');
    if p.len() != 4 {
        return None;
    }
    match (
        read_octet(v, p[0].0, p[0].1),
        read_octet(v, p[1].0, p[1].1),
        read_octet(v, p[2].0, p[2].1),
        read_octet(v, p[3].0, p[3].1),
    ) {
        (Some(a), Some(b), Some(c), Some(d)) => Some(
            Ipv4Addr { bits: a * 0x100_0000 + b * 0x1_0000 + c * 0x100 + d },
        ),
        _ => None,
    }
}

proof fn lemma_group_bound(s: Seq<char>)
    requires
        group_of(s) is Some,
    ensures
        group_of(s)->0 <= 0xffff,
{
    reveal_with_fuel(value_of, 5);
}

/// What a list of groups stands for.
pub open spec fn numbers(g: Seq<u16>) -> Seq<nat> {
    g.map_values(|x: u16| x as nat)
}

proof fn lemma_no_groups(p: Seq<Seq<char>>, embedded: bool, i: int)
    requires
        0 <= i < p.len(),
        group_of(p[i]) is None,
        i + 1 < p.len() || !embedded || v4_of(p[i]) is None,
    ensures
        group_list(p, embedded) is None,
    decreases p.len(),
{
    if i + 1 < p.len() {
        assert(p.drop_last()[i] == p[i]);
        lemma_no_groups(p.drop_last(), false, i);
    }
}

fn read_groups(v: &Vec<char>, from: usize, to: usize, embedded: bool) -> (r: Option<Vec<u16>>)
    requires
        from <= to <= v@.len(),
    ensures
        match r {
            Some(g) => half_of(v@.subrange(from as int, to as int), embedded) == Some(numbers(g@)),
            None => half_of(v@.subrange(from as int, to as int), embedded) is None,
        },
{
    let mut out: Vec<u16> = Vec::new();
    proof {
        assert(numbers(out@) =~= Seq::<nat>::empty());
    }
    if from == to {
        return Some(out);
    }
    let p: Vec<(usize, usize)> = cut(v, from, to, ':');
    let ghost parts = pieces(v@.subrange(from as int, to as int), ':');
    let mut i: usize = 0;
    proof {
        assert(parts.take(0) =~= Seq::<Seq<char>>::empty());
    }
    while i < p.len() - 1
        invariant
            i + 1 <= p@.len(),
            p@.len() == parts.len() >= 1,
            from < to <= v@.len(),
            parts == pieces(v@.subrange(from as int, to as int), ':'),
            forall|j: int|
                0 <= j < p@.len() ==> from <= (#[trigger] p@[j]).0 <= p@[j].1 <= to && v@.subrange(
                    p@[j].0 as int,
                    p@[j].1 as int,
                ) == parts[j],
            group_list(parts.take(i as int), false) == Some(numbers(out@)),
        decreases p@.len() - i,
    {
        proof {
            assert(parts.take(i + 1).drop_last() =~= parts.take(i as int));
            assert(parts.take(i + 1).last() == parts[i as int]);
        }
        match read_group(v, p[i].0, p[i].1) {
            Some(g) => {
                proof {
                    assert(numbers(out@.push(g)) =~= numbers(out@).push(g as nat));
                }
                out.push(g);
            },
            None => {
                proof {
                    lemma_no_groups(parts, embedded, i as int);
                }
                return None;
            },
        }
        i = i + 1;
    }
    proof {
        assert(parts.drop_last() =~= parts.take(i as int));
        assert(parts.last() == parts[i as int]);
    }
    match read_group(v, p[i].0, p[i].1) {
        Some(g) => {
            proof {
                assert(numbers(out@.push(g)) =~= numbers(out@).push(g as nat));
            }
            out.push(g);
            Some(out)
        },
        None => {
            if !embedded {
                return None;
            }
            match read_v4(v, p[i].0, p[i].1) {
                Some(a) => {
                    let hi: u16 = (a.bits / 0x1_0000) as u16;
                    let lo: u16 = (a.bits % 0x1_0000) as u16;
                    proof {
                        assert(numbers(out@.push(hi).push(lo)) =~= numbers(out@).push(
                            hi as nat,
                        ).push(lo as nat));
                    }
                    out.push(hi);
                    out.push(lo);
                    Some(out)
                },
                None => None,
            }
        },
    }
}

fn read_group(v: &Vec<char>, from: usize, to: usize) -> (r: Option<u16>)
    requires
        from <= to <= v@.len(),
    ensures
        match r {
            Some(n) => group_of(v@.subrange(from as int, to as int)) == Some(n as nat),
            None => group_of(v@.subrange(from as int, to as int)) is None,
        },
{
    let n: usize = to - from;
    if n == 0 || n > 4 {
        return None;
    }
    proof {
        let s = v@.subrange(from as int, to as int);
        if group_of(s) is Some {
            lemma_group_bound(s);
        }
    }
    match read_value(v, from, to, 16, 0xffff) {
        Some(x) => Some(x as u16),
        None => None,
    }
}

fn find_gap(v: &Vec<char>) -> (r: Option<usize>)
    ensures
        match r {
            Some(i) => first_gap(v@, 0) == Some(i as int) && i + 1 < v@.len(),
            None => first_gap(v@, 0) is None,
        },
{
    let n: usize = v.len();
    let mut i: usize = 0;
    while i < n && i + 1 < n
        invariant
            i <= n,
            n == v@.len(),
            first_gap(v@, 0) == first_gap(v@, i as int),
        decreases n - i,
    {
        if v[i] == ':' && v[i + 1] == ':' {
            return Some(i);
        }
        i = i + 1;
    }
    None
}

proof fn lemma_joined_bound(g: Seq<nat>)
    requires
        forall|i: int| 0 <= i < g.len() ==> (#[trigger] g[i]) <= 0xffff,
    ensures
        joined(g) < vstd::arithmetic::power2::pow2((16 * g.len()) as nat),
    decreases g.len(),
{
    vstd::arithmetic::power2::lemma2_to64();
    if g.len() > 0 {
        lemma_joined_bound(g.drop_last());
        vstd::arithmetic::power2::lemma_pow2_adds((16 * (g.len() - 1)) as nat, 16);
        assert(16 * (g.len() - 1) + 16 == 16 * g.len());
    }
}

proof fn lemma_joined_fits(g: Seq<nat>)
    requires
        g.len() <= 8,
        forall|i: int| 0 <= i < g.len() ==> (#[trigger] g[i]) <= 0xffff,
    ensures
        joined(g) <= u128::MAX,
{
    lemma_joined_bound(g);
    vstd::arithmetic::power2::lemma2_to64();
    vstd::arithmetic::power2::lemma_pow2_adds(64, 64);
    if g.len() < 8 {
        vstd::arithmetic::power2::lemma_pow2_strictly_increases((16 * g.len()) as nat, 128);
    }
}

fn join(g: &Vec<u16>) -> (r: u128)
    requires
        g@.len() == 8,
    ensures
        r == joined(numbers(g@)),
{
    let ghost all = numbers(g@);
    let mut bits: u128 = 0;
    let mut i: usize = 0;
    while i < g.len()
        invariant
            i <= g@.len() == 8,
            all == numbers(g@),
            bits == joined(all.take(i as int)),
        decreases g@.len() - i,
    {
        proof {
            assert(all.take(i + 1).drop_last() =~= all.take(i as int));
            lemma_joined_fits(all.take(i + 1));
        }
        bits = bits * 0x1_0000 + g[i] as u128;
        i = i + 1;
    }
    proof {
        assert(all.take(8) =~= all);
    }
    bits
}

fn read_v6(v: &Vec<char>) -> (r: Option<Ipv6Addr>)
    ensures
        match r {
            Some(a) => v6_groups(v@) is Some && joined(v6_groups(v@)->0) == a.bits,
            None => v6_groups(v@) is None,
        },
{
    let n: usize = v.len();
    match find_gap(v) {
        Some(i) => {
            proof {
                assert(v@.subrange(0, i as int) =~= v@.take(i as int));
                assert(v@.subrange(i + 2, v@.len() as int) =~= v@.skip(i + 2));
            }
            let head: Option<Vec<u16>> = read_groups(v, 0, i, false);
            let tail: Option<Vec<u16>> = read_groups(v, i + 2, n, true);
            match (head, tail) {
                (Some(h), Some(t)) => {
                    if h.len() > 7 || t.len() > 7 - h.len() {
                        return None;
                    }
                    let all: Vec<u16> = padded(&h, &t);
                    let bits: u128 = join(&all);
                    Some(Ipv6Addr { bits })
                },
                _ => None,
            }
        },
        None => {
            proof {
                assert(v@.subrange(0, v@.len() as int) =~= v@);
            }
            match read_groups(v, 0, n, true) {
                Some(g) => {
                    if g.len() != 8 {
                        return None;
                    }
                    let bits: u128 = join(&g);
                    Some(Ipv6Addr { bits })
                },
                None => None,
            }
        },
    }
}

/// Eight groups: the head, zeros, the tail.
fn padded(h: &Vec<u16>, t: &Vec<u16>) -> (r: Vec<u16>)
    requires
        h@.len() + t@.len() <= 7,
    ensures
        r@.len() == 8,
        numbers(r@) == numbers(h@) + zeros((8 - h@.len() - t@.len()) as nat) + numbers(t@),
{
    let mut r: Vec<u16> = Vec::new();
    let mut i: usize = 0;
    while i < 8
        invariant
            i <= 8,
            r@.len() == i,
            h@.len() + t@.len() <= 7,
            forall|j: int|
                0 <= j < i ==> (#[trigger] r@[j]) == (if j < h@.len() {
                    h@[j]
                } else if j < 8 - t@.len() {
                    0
                } else {
                    t@[j - (8 - t@.len())]
                }),
        decreases 8 - i,
    {
        if i < h.len() {
            r.push(h[i]);
        } else if i < 8 - t.len() {
            r.push(0);
        } else {
            r.push(t[i - (8 - t.len())]);
        }
        i = i + 1;
    }
    proof {
        assert(numbers(r@) =~= numbers(h@) + zeros((8 - h@.len() - t@.len()) as nat) + numbers(t@));
    }
    r
}

/// Reads an IP address: IPv4 in dotted decimal, or IPv6.
pub fn parse_ip(s: &str) -> (r: Option<IpAddr>)
    ensures
        r == ip_of(s@),
{
    let v: Vec<char> = text::chars_of(s);
    proof {
        assert(v@.subrange(0, v@.len() as int) =~= v@);
    }
    match read_v4(&v, 0, v.len()) {
        Some(a) => Some(IpAddr::V4(a)),
        None => match read_v6(&v) {
            Some(a) => Some(IpAddr::V6(a)),
            None => None,
        },
    }
}

/// Reads a decimal number up to 255.
pub fn parse_u8(s: &str) -> (r: Option<u8>)
    ensures
        r == u8_of(s@),
{
    let v: Vec<char> = text::chars_of(s);
    let from: usize = if v.len() > 0 && v[0] == '+' {
        1
    } else {
        0
    };
    proof {
        assert(v@.subrange(0, v@.len() as int) =~= v@);
        if v@.len() > 0 {
            assert(v@.subrange(1, v@.len() as int) =~= v@.drop_first());
        }
    }
    if from == v.len() {
        return None;
    }
    match read_value(&v, from, v.len(), 10, 255) {
        Some(n) => Some(n as u8),
        None => None,
    }
}

proof fn lemma_split_at(s: Seq<char>, sep: char, i: int)
    requires
        0 <= i < s.len(),
        s[i] == sep,
        forall|j: int| 0 <= j < i ==> s[j] != sep,
    ensures
        split_at_first(s, sep) == Some((s.take(i), s.skip(i + 1))),
    decreases i,
{
    if i == 0 {
        assert(s.take(0) =~= Seq::empty());
        assert(s.skip(1) =~= s.drop_first());
    } else {
        lemma_split_at(s.drop_first(), sep, i - 1);
        assert(seq![s[0]] + s.drop_first().take(i - 1) =~= s.take(i));
        assert(s.drop_first().skip(i) =~= s.skip(i + 1));
    }
}

proof fn lemma_split_none(s: Seq<char>, sep: char)
    requires
        forall|j: int| 0 <= j < s.len() ==> s[j] != sep,
    ensures
        split_at_first(s, sep) is None,
    decreases s.len(),
{
    if s.len() > 0 {
        lemma_split_none(s.drop_first(), sep);
    }
}

/// Splits a text at the first separator.
pub fn split_once(s: &str, sep: char) -> (r: Option<(String, String)>)
    ensures
        match r {
            Some((a, b)) => split_at_first(s@, sep) == Some((a@, b@)),
            None => split_at_first(s@, sep) is None,
        },
{
    let v: Vec<char> = text::chars_of(s);
    let mut i: usize = 0;
    while i < v.len()
        invariant
            i <= v@.len(),
            v@ == s@,
            forall|j: int| 0 <= j < i ==> v@[j] != sep,
        decreases v@.len() - i,
    {
        if v[i] == sep {
            proof {
                lemma_split_at(v@, sep, i as int);
                assert(v@.subrange(0, i as int) =~= v@.take(i as int));
                assert(v@.subrange(i + 1, v@.len() as int) =~= v@.skip(i + 1));
            }
            return Some((text::text_between(&v, 0, i), text::text_between(&v, i + 1, v.len())));
        }
        i = i + 1;
    }
    proof {
        lemma_split_none(v@, sep);
    }
    None
}

} // verus!
