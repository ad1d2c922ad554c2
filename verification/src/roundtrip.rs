//! Reading an address gives back what was written.

use vstd::prelude::*;

use crate::ip;
use crate::ip::{IpAddr, Ipv4Addr, Ipv6Addr};
use crate::parse;
use crate::text;

verus! {

/// Neither a dot nor a colon.
spec fn plain(c: char) -> bool {
    c != '.' && c != ':'
}

proof fn lemma_numeral(n: nat, base: nat)
    requires
        base == 10 || base == 16,
    ensures
        parse::value_of(text::numeral(n, base), base) == Some(n),
        text::numeral(n, base).len() >= 1,
        forall|i: int|
            0 <= i < text::numeral(n, base).len() ==> plain(#[trigger] text::numeral(n, base)[i]),
        n > 0 ==> text::numeral(n, base)[0] != '0',
    decreases n,
{
    let s = text::numeral(n, base);
    if n < base {
        assert(s.drop_last() =~= Seq::empty());
        assert(parse::value_of(s.drop_last(), base) == Some(0nat));
    } else {
        assert(0 < n / base < n) by (nonlinear_arith)
            requires
                base >= 2,
                n >= base,
        ;
        lemma_numeral(n / base, base);
        let front = text::numeral(n / base, base);
        assert(s.drop_last() =~= front);
        assert(n % base < base && (n / base) * base + n % base == n) by (nonlinear_arith)
            requires
                base >= 2,
        ;
        assert forall|i: int| 0 <= i < s.len() implies plain(#[trigger] s[i]) by {
            if i < front.len() {
                assert(plain(front[i]));
            }
        }
        assert(s[0] == front[0]);
    }
}

proof fn lemma_numeral_length(n: nat)
    ensures
        n <= 255 ==> text::decimal(n).len() <= 3,
        n < 10 ==> text::decimal(n).len() == 1,
        n <= 0xffff ==> text::hexadecimal(n).len() <= 4,
{
    reveal_with_fuel(text::numeral, 5);
}

proof fn lemma_octet(n: nat)
    requires
        n <= 255,
    ensures
        parse::octet_of(text::decimal(n)) == Some(n),
{
    lemma_numeral(n, 10);
    lemma_numeral_length(n);
}

proof fn lemma_group(n: nat)
    requires
        n <= 0xffff,
    ensures
        parse::group_of(text::hexadecimal(n)) == Some(n),
{
    lemma_numeral(n, 16);
    lemma_numeral_length(n);
}

proof fn lemma_pieces_count(s: Seq<char>, sep: char)
    ensures
        parse::pieces(s, sep).len() >= 1,
    decreases s.len(),
{
    if s.len() > 0 {
        lemma_pieces_count(s.drop_last(), sep);
    }
}

/// A text without separators is one part.
pub proof fn lemma_pieces_one(s: Seq<char>, sep: char)
    requires
        forall|i: int| 0 <= i < s.len() ==> s[i] != sep,
    ensures
        parse::pieces(s, sep) == seq![s],
    decreases s.len(),
{
    if s.len() > 0 {
        lemma_pieces_one(s.drop_last(), sep);
        assert(s.drop_last().push(s.last()) =~= s);
        assert(seq![s.drop_last()].drop_last().push(s) =~= seq![s]);
    } else {
        assert(s =~= Seq::empty());
    }
}

/// What follows a separator and holds none is one more part.
pub proof fn lemma_pieces_join(a: Seq<char>, b: Seq<char>, sep: char)
    requires
        forall|i: int| 0 <= i < b.len() ==> b[i] != sep,
    ensures
        parse::pieces(a.push(sep) + b, sep) == parse::pieces(a, sep).push(b),
    decreases b.len(),
{
    let s = a.push(sep) + b;
    lemma_pieces_count(a, sep);
    if b.len() == 0 {
        assert(s =~= a.push(sep));
        assert(s.drop_last() =~= a);
        assert(b =~= Seq::empty());
    } else {
        let front = b.drop_last();
        lemma_pieces_join(a, front, sep);
        assert(s.drop_last() =~= a.push(sep) + front);
        assert(front.push(b.last()) =~= b);
        let p = parse::pieces(a, sep).push(front);
        assert(p.drop_last().push(b) =~= parse::pieces(a, sep).push(b));
    }
}

/// A character that is no separator lies in some part.
proof fn lemma_pieces_cover(s: Seq<char>, sep: char, i: int) -> (r: (int, int))
    requires
        0 <= i < s.len(),
        s[i] != sep,
    ensures
        0 <= r.0 < parse::pieces(s, sep).len(),
        0 <= r.1 < parse::pieces(s, sep)[r.0].len(),
        parse::pieces(s, sep)[r.0][r.1] == s[i],
    decreases s.len(),
{
    let p = parse::pieces(s.drop_last(), sep);
    lemma_pieces_count(s.drop_last(), sep);
    if i == s.len() - 1 {
        (p.len() - 1, p.last().len() as int)
    } else {
        lemma_pieces_cover(s.drop_last(), sep, i)
    }
}

proof fn lemma_value_digits(s: Seq<char>, base: nat, i: int)
    requires
        parse::value_of(s, base) is Some,
        0 <= i < s.len(),
    ensures
        parse::digit_value(s[i], base) is Some,
    decreases s.len(),
{
    if i < s.len() - 1 {
        lemma_value_digits(s.drop_last(), base, i);
    }
}

/// There is no colon in an IPv4 address.
proof fn lemma_v4_has_no_colon(s: Seq<char>, i: int)
    requires
        0 <= i < s.len(),
        s[i] == ':',
    ensures
        parse::v4_of(s) is None,
{
    if parse::v4_of(s) is Some {
        let p = parse::pieces(s, '.');
        let (j, k) = lemma_pieces_cover(s, '.', i);
        assert(j == 0 || j == 1 || j == 2 || j == 3);
        lemma_value_digits(p[j], 10, k);
    }
}

proof fn lemma_octets_join(n: int)
    requires
        0 <= n <= u32::MAX,
    ensures
        n == (n / 0x100_0000) * 0x100_0000 + (n / 0x1_0000 % 0x100) * 0x1_0000 + (n / 0x100 % 0x100)
            * 0x100 + n % 0x100,
{
}

proof fn lemma_four_pieces(d0: Seq<char>, d1: Seq<char>, d2: Seq<char>, d3: Seq<char>)
    requires
        forall|i: int| 0 <= i < d0.len() ==> plain(#[trigger] d0[i]),
        forall|i: int| 0 <= i < d1.len() ==> plain(#[trigger] d1[i]),
        forall|i: int| 0 <= i < d2.len() ==> plain(#[trigger] d2[i]),
        forall|i: int| 0 <= i < d3.len() ==> plain(#[trigger] d3[i]),
    ensures
        ({
            let s = d0.push('.') + d1.push('.') + d2.push('.') + d3;
            &&& parse::pieces(s, '.') == seq![d0, d1, d2, d3]
            &&& forall|i: int| 0 <= i < s.len() ==> (#[trigger] s[i]) != ':'
        }),
{
    let s = d0.push('.') + d1.push('.') + d2.push('.') + d3;
    let two = d0.push('.') + d1;
    let three = two.push('.') + d2;
    assert(s =~= three.push('.') + d3);
    lemma_pieces_one(d0, '.');
    lemma_pieces_join(d0, d1, '.');
    lemma_pieces_join(two, d2, '.');
    lemma_pieces_join(three, d3, '.');
    assert(seq![d0].push(d1).push(d2).push(d3) =~= seq![d0, d1, d2, d3]);
    assert forall|i: int| 0 <= i < s.len() implies (#[trigger] s[i]) != ':' by {
        let n0 = d0.len() as int;
        let n1 = d1.len() as int;
        let n2 = d2.len() as int;
        if i < n0 {
            assert(s[i] == d0[i]);
        } else if n0 < i < n0 + 1 + n1 {
            assert(s[i] == d1[i - n0 - 1]);
        } else if n0 + 1 + n1 < i < n0 + n1 + n2 + 2 {
            assert(s[i] == d2[i - n0 - n1 - 2]);
        } else if i > n0 + n1 + n2 + 2 {
            assert(s[i] == d3[i - n0 - n1 - n2 - 3]);
        }
    }
}

proof fn lemma_v4_text(a: Ipv4Addr)
    ensures
        parse::v4_of(a.text()) == Some(a),
        a.text().len() >= 7,
        forall|i: int| 0 <= i < a.text().len() ==> (#[trigger] a.text()[i]) != ':',
{
    let d0 = text::decimal(a.octet(0) as nat);
    let d1 = text::decimal(a.octet(1) as nat);
    let d2 = text::decimal(a.octet(2) as nat);
    let d3 = text::decimal(a.octet(3) as nat);
    lemma_octet(a.octet(0) as nat);
    lemma_octet(a.octet(1) as nat);
    lemma_octet(a.octet(2) as nat);
    lemma_octet(a.octet(3) as nat);
    lemma_numeral(a.octet(0) as nat, 10);
    lemma_numeral(a.octet(1) as nat, 10);
    lemma_numeral(a.octet(2) as nat, 10);
    lemma_numeral(a.octet(3) as nat, 10);
    lemma_four_pieces(d0, d1, d2, d3);
    lemma_octets_join(a.bits as int);
}

/// Every colon is followed by something that is none.
spec fn tidy(s: Seq<char>) -> bool {
    forall|i: int| 0 <= i < s.len() && #[trigger] s[i] == ':' ==> i + 1 < s.len() && s[i + 1] != ':'
}

spec fn hex_parts(segs: Seq<u16>) -> Seq<Seq<char>> {
    segs.map_values(|x: u16| text::hexadecimal(x as nat))
}

proof fn lemma_groups(segs: Seq<u16>, embedded: bool)
    ensures
        parse::half_of(ip::groups(segs), embedded) == Some(parse::numbers(segs)),
        segs.len() > 0 ==> parse::pieces(ip::groups(segs), ':') == hex_parts(segs),
        segs.len() > 0 ==> ip::groups(segs).len() > 0,
        tidy(ip::groups(segs)),
    decreases segs.len(),
{
    if segs.len() == 0 {
        assert(parse::numbers(segs) =~= Seq::empty());
    } else {
        let front = segs.drop_last();
        let last = text::hexadecimal(segs.last() as nat);
        lemma_groups(front, false);
        lemma_numeral(segs.last() as nat, 16);
        assert(forall|i: int| 0 <= i < last.len() ==> plain(#[trigger] last[i]));
        assert(hex_parts(segs) =~= hex_parts(front).push(last));
        if segs.len() == 1 {
            lemma_pieces_one(last, ':');
            assert(hex_parts(segs) =~= seq![last]);
        } else {
            lemma_pieces_join(ip::groups(front), last, ':');
            let s = ip::groups(segs);
            let f = ip::groups(front);
            assert forall|i: int| 0 <= i < s.len() && #[trigger] s[i] == ':' implies i + 1 < s.len()
                && s[i + 1] != ':' by {
                if i < f.len() {
                    assert(f[i] == ':');
                    assert(s[i + 1] == f[i + 1]);
                } else if i == f.len() {
                    assert(s[i + 1] == last[0]);
                } else {
                    assert(s[i] == last[i - f.len() - 1]);
                }
            }
        }
        lemma_hex_list(segs, embedded);
    }
}

proof fn lemma_hex_list(segs: Seq<u16>, embedded: bool)
    ensures
        parse::group_list(hex_parts(segs), embedded) == Some(parse::numbers(segs)),
    decreases segs.len(),
{
    if segs.len() > 0 {
        lemma_hex_list(segs.drop_last(), false);
        assert(hex_parts(segs).drop_last() =~= hex_parts(segs.drop_last()));
        lemma_group(segs.last() as nat);
        assert(parse::numbers(segs.drop_last()).push(segs.last() as nat) =~= parse::numbers(segs));
    } else {
        assert(parse::numbers(segs) =~= Seq::empty());
    }
}

proof fn lemma_no_gap(s: Seq<char>, i: int)
    requires
        0 <= i,
        forall|j: int| i <= j ==> !#[trigger] parse::gap_at(s, j),
    ensures
        parse::first_gap(s, i) is None,
    decreases s.len() - i,
{
    if i + 1 < s.len() {
        lemma_no_gap(s, i + 1);
    }
}

proof fn lemma_first_gap(s: Seq<char>, i: int, k: int)
    requires
        0 <= i <= k,
        parse::gap_at(s, k),
        forall|j: int| i <= j < k ==> !#[trigger] parse::gap_at(s, j),
    ensures
        parse::first_gap(s, i) == Some(k),
    decreases k - i,
{
    if i < k {
        lemma_first_gap(s, i + 1, k);
    }
}

proof fn lemma_zero_run(segs: Seq<u16>, i: int)
    requires
        0 <= i <= segs.len(),
    ensures
        i + ip::zero_run(segs, i) <= segs.len(),
        forall|j: int| i <= j < i + ip::zero_run(segs, i) ==> (#[trigger] segs[j]) == 0,
    decreases segs.len() - i,
{
    if i < segs.len() && segs[i] == 0 {
        lemma_zero_run(segs, i + 1);
    }
}

proof fn lemma_longest_run(segs: Seq<u16>, n: int)
    requires
        1 <= n,
    ensures
        0 <= ip::longest_run(segs, n) < n,
    decreases n,
{
    if n > 1 {
        lemma_longest_run(segs, n - 1);
    }
}

proof fn lemma_segments_join(a: Ipv6Addr)
    ensures
        parse::joined(parse::numbers(a.segs())) == a.bits,
{
    let g = parse::numbers(a.segs());
    let n = a.bits as int;
    let q1 = n / 0x1_0000;
    let q2 = n / 0x1_0000_0000;
    let q3 = n / 0x1_0000_0000_0000;
    let q4 = n / 0x1_0000_0000_0000_0000;
    let q5 = n / 0x1_0000_0000_0000_0000_0000;
    let q6 = n / 0x1_0000_0000_0000_0000_0000_0000;
    let q7 = n / 0x1_0000_0000_0000_0000_0000_0000_0000;
    vstd::arithmetic::div_mod::lemma_div_denominator(n, 0x1_0000, 0x1_0000);
    vstd::arithmetic::div_mod::lemma_div_denominator(n, 0x1_0000_0000, 0x1_0000);
    vstd::arithmetic::div_mod::lemma_div_denominator(n, 0x1_0000_0000_0000, 0x1_0000);
    vstd::arithmetic::div_mod::lemma_div_denominator(n, 0x1_0000_0000_0000_0000, 0x1_0000);
    vstd::arithmetic::div_mod::lemma_div_denominator(n, 0x1_0000_0000_0000_0000_0000, 0x1_0000);
    vstd::arithmetic::div_mod::lemma_div_denominator(
        n,
        0x1_0000_0000_0000_0000_0000_0000,
        0x1_0000,
    );
    assert(g[0] == q7);
    assert(g[1] == q6 % 0x1_0000);
    assert(g[2] == q5 % 0x1_0000);
    assert(g[3] == q4 % 0x1_0000);
    assert(g[4] == q3 % 0x1_0000);
    assert(g[5] == q2 % 0x1_0000);
    assert(g[6] == q1 % 0x1_0000);
    assert(g[7] == n % 0x1_0000);
    lemma_joined_step(g, 0);
    lemma_joined_step(g, 1);
    lemma_joined_step(g, 2);
    lemma_joined_step(g, 3);
    lemma_joined_step(g, 4);
    lemma_joined_step(g, 5);
    lemma_joined_step(g, 6);
    lemma_joined_step(g, 7);
    assert(g.take(0) =~= Seq::empty());
    assert(g.take(8) =~= g);
    assert(parse::joined(g.take(1)) == q7);
    assert(parse::joined(g.take(2)) == q6);
    assert(parse::joined(g.take(3)) == q5);
    assert(parse::joined(g.take(4)) == q4);
    assert(parse::joined(g.take(5)) == q3);
    assert(parse::joined(g.take(6)) == q2);
    assert(parse::joined(g.take(7)) == q1);
}

proof fn lemma_joined_step(g: Seq<nat>, i: int)
    requires
        0 <= i < g.len(),
    ensures
        parse::joined(g.take(i + 1)) == parse::joined(g.take(i)) * 0x1_0000 + g[i],
{
    assert(g.take(i + 1).drop_last() =~= g.take(i));
}

proof fn lemma_three_groups(a: nat, b: nat, c: nat)
    ensures
        parse::joined(Seq::<nat>::empty() + parse::zeros(5) + seq![a, b, c]) == a * 0x1_0000_0000
            + b * 0x1_0000 + c,
{
    let g = Seq::<nat>::empty() + parse::zeros(5) + seq![a, b, c];
    assert(g.take(0) =~= Seq::empty());
    lemma_joined_step(g, 0);
    lemma_joined_step(g, 1);
    lemma_joined_step(g, 2);
    lemma_joined_step(g, 3);
    lemma_joined_step(g, 4);
    lemma_joined_step(g, 5);
    lemma_joined_step(g, 6);
    lemma_joined_step(g, 7);
    assert(g.take(8) =~= g);
}

proof fn lemma_ffff()
    ensures
        parse::group_of(seq!['f', 'f', 'f', 'f']) == Some(0xffffnat),
{
    let ffff = seq!['f', 'f', 'f', 'f'];
    reveal_with_fuel(parse::value_of, 5);
    assert(ffff.drop_last() =~= seq!['f', 'f', 'f']);
    assert(ffff.drop_last().drop_last() =~= seq!['f', 'f']);
    assert(ffff.drop_last().drop_last().drop_last() =~= seq!['f']);
    assert(ffff.drop_last().drop_last().drop_last().drop_last() =~= Seq::empty());
}

/// One group and an IPv4 address behind it.
proof fn lemma_group_and_v4(first: Seq<char>, g: nat, second: Seq<char>, b: Ipv4Addr)
    requires
        parse::group_of(first) == Some(g),
        parse::v4_of(second) == Some(b),
        second.len() > 4,
        forall|i: int| 0 <= i < first.len() ==> first[i] != ':',
        forall|i: int| 0 <= i < second.len() ==> second[i] != ':',
    ensures
        parse::half_of(first.push(':') + second, true) == Some(
            seq![g, (b.bits / 0x1_0000) as nat, (b.bits % 0x1_0000) as nat],
        ),
{
    lemma_pieces_one(first, ':');
    lemma_pieces_join(first, second, ':');
    let p = parse::pieces(first.push(':') + second, ':');
    let front = seq![first];
    assert(p.drop_last() =~= front);
    assert(front.drop_last() =~= Seq::empty());
    assert(parse::group_list(front.drop_last(), false) == Some(Seq::<nat>::empty()));
    assert(parse::group_list(front, false) == Some(Seq::empty().push(g)));
    let hi = (b.bits / 0x1_0000) as nat;
    let lo = (b.bits % 0x1_0000) as nat;
    assert(Seq::empty().push(g).push(hi).push(lo) =~= seq![g, hi, lo]);
}

proof fn lemma_mapped(a: Ipv6Addr)
    requires
        a.is_mapped(),
    ensures
        parse::ip_of(a.text()) == Some(IpAddr::V6(a)),
{
    let b = Ipv4Addr { bits: (a.bits % 0x1_0000_0000) as u32 };
    let s = a.text();
    lemma_v4_has_no_colon(s, 0);
    let ffff = seq!['f', 'f', 'f', 'f'];
    lemma_v4_text(b);
    lemma_ffff();
    lemma_group_and_v4(ffff, 0xffff, b.text(), b);
    let hi = (b.bits / 0x1_0000) as nat;
    let lo = (b.bits % 0x1_0000) as nat;
    let t = seq![0xffffnat, hi, lo];
    assert(s.skip(2) =~= ffff.push(':') + b.text());
    assert(s.take(0) =~= Seq::empty());
    assert(parse::gap_at(s, 0));
    let g = Seq::<nat>::empty() + parse::zeros(5) + t;
    assert(parse::v6_groups(s) == Some(g));
    lemma_three_groups(0xffff, hi, lo);
}

proof fn lemma_v6_text(a: Ipv6Addr)
    requires
        !a.is_mapped(),
    ensures
        parse::ip_of(a.text()) == Some(IpAddr::V6(a)),
{
    let segs = a.segs();
    let s = a.text();
    let start = ip::longest_run(segs, 8);
    let len = ip::zero_run(segs, start);
    lemma_longest_run(segs, 8);
    lemma_zero_run(segs, start);
    lemma_segments_join(a);
    if len > 1 {
        let h = segs.take(start);
        let t = segs.skip(start + len);
        let head = ip::groups(h);
        let tail = ip::groups(t);
        lemma_groups(h, false);
        lemma_groups(t, true);
        let k = head.len() as int;
        assert(s == head.push(':').push(':') + tail);
        assert(s[k] == ':' && s[k + 1] == ':');
        lemma_v4_has_no_colon(s, k);
        assert(parse::gap_at(s, k));
        assert forall|j: int| 0 <= j < k implies !#[trigger] parse::gap_at(s, j) by {
            assert(s[j] == head[j]);
            if head[j] == ':' {
                assert(s[j + 1] == head[j + 1]);
            }
        }
        lemma_first_gap(s, 0, k);
        assert(s.take(k) =~= head);
        assert(s.skip(k + 2) =~= tail);
        let g = parse::numbers(h) + parse::zeros(len) + parse::numbers(t);
        assert(g =~= parse::numbers(segs)) by {
            assert forall|j: int| 0 <= j < 8 implies g[j] == parse::numbers(segs)[j] by {
                if start <= j < start + len {
                    assert(segs[j] == 0);
                }
            }
        }
    } else {
        lemma_groups(segs, true);
        assert forall|j: int| 0 <= j implies !#[trigger] parse::gap_at(s, j) by {}
        lemma_no_gap(s, 0);
        let f = ip::groups(segs.drop_last());
        assert(s[f.len() as int] == ':');
        lemma_v4_has_no_colon(s, f.len() as int);
    }
}

/// Reading the text of an address gives back the address.
pub proof fn written_address_reads_back(a: IpAddr)
    ensures
        parse::ip_of(a.text()) == Some(a),
{
    match a {
        IpAddr::V4(a) => {
            lemma_v4_text(a);
        },
        IpAddr::V6(a) => {
            if a.is_mapped() {
                lemma_mapped(a);
            } else {
                lemma_v6_text(a);
            }
        },
    }
}

/// Two addresses with the same text are the same.
pub proof fn address_text_is_unique(a: IpAddr, b: IpAddr)
    requires
        a.text() == b.text(),
    ensures
        a == b,
{
    written_address_reads_back(a);
    written_address_reads_back(b);
}

/// The decimal text of a number has no colon in it and belongs to no other number.
pub proof fn decimals_are_plain(m: nat, n: nat)
    ensures
        forall|i: int| 0 <= i < text::decimal(m).len() ==> #[trigger] text::decimal(m)[i] != ':',
        forall|i: int| 0 <= i < text::decimal(n).len() ==> #[trigger] text::decimal(n)[i] != ':',
        text::decimal(m) == text::decimal(n) ==> m == n,
{
    lemma_numeral(m, 10);
    lemma_numeral(n, 10);
    assert forall|i: int| 0 <= i < text::decimal(m).len() implies #[trigger] text::decimal(m)[i]
        != ':' by {
        assert(plain(text::numeral(m, 10)[i]));
    }
    assert forall|i: int| 0 <= i < text::decimal(n).len() implies #[trigger] text::decimal(n)[i]
        != ':' by {
        assert(plain(text::numeral(n, 10)[i]));
    }
}

} // verus!
