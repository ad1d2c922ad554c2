//! IP addresses and their canonical text.

use vstd::prelude::*;
use vstd::string::*;

use crate::text;

verus! {

/// An IPv4 address, as the number whose most significant byte is the first octet.
#[derive(Debug, Clone, Copy, PartialEq, Eq, Hash, Structural)]
pub struct Ipv4Addr {
    pub bits: u32,
}

/// An IPv6 address, as the number whose most significant byte is the first octet.
#[derive(Debug, Clone, Copy, PartialEq, Eq, Hash, Structural)]
pub struct Ipv6Addr {
    pub bits: u128,
}

#[derive(Debug, Clone, Copy, PartialEq, Eq, Hash, Structural)]
pub enum IpAddr {
    V4(Ipv4Addr),
    V6(Ipv6Addr),
}

/// The number whose big-endian base-256 digits are `b`.
pub open spec fn from_big_endian(b: Seq<u8>) -> nat
    decreases b.len(),
{
    if b.len() == 0 {
        0
    } else {
        from_big_endian(b.drop_last()) * 256 + b.last() as nat
    }
}

proof fn lemma_octets(n: int, a: int, b: int, c: int, d: int)
    requires
        0 <= a < 256,
        0 <= b < 256,
        0 <= c < 256,
        0 <= d < 256,
        n == a * 0x100_0000 + b * 0x1_0000 + c * 0x100 + d,
    ensures
        n / 0x100_0000 == a,
        n / 0x1_0000 % 0x100 == b,
        n / 0x100 % 0x100 == c,
        n % 0x100 == d,
{
    assert(n / 0x100_0000 == a) by {
        vstd::arithmetic::div_mod::lemma_fundamental_div_mod_converse(
            n,
            0x100_0000,
            a,
            b * 0x1_0000 + c * 0x100 + d,
        );
    }
    assert(n / 0x1_0000 == a * 0x100 + b) by {
        vstd::arithmetic::div_mod::lemma_fundamental_div_mod_converse(
            n,
            0x1_0000,
            a * 0x100 + b,
            c * 0x100 + d,
        );
    }
    assert(n / 0x100 == a * 0x1_0000 + b * 0x100 + c && n % 0x100 == d) by {
        vstd::arithmetic::div_mod::lemma_fundamental_div_mod_converse(
            n,
            0x100,
            a * 0x1_0000 + b * 0x100 + c,
            d,
        );
    }
    assert((a * 0x100 + b) % 0x100 == b) by {
        vstd::arithmetic::div_mod::lemma_fundamental_div_mod_converse(a * 0x100 + b, 0x100, a, b);
    }
    assert((a * 0x1_0000 + b * 0x100 + c) % 0x100 == c) by {
        vstd::arithmetic::div_mod::lemma_fundamental_div_mod_converse(
            a * 0x1_0000 + b * 0x100 + c,
            0x100,
            a * 0x100 + b,
            c,
        );
    }
}

impl Ipv4Addr {
    /// The first octet is the most significant one.
    pub open spec fn octet(self, i: int) -> u8 {
        if i == 0 {
            (self.bits / 0x100_0000) as u8
        } else if i == 1 {
            (self.bits / 0x1_0000 % 0x100) as u8
        } else if i == 2 {
            (self.bits / 0x100 % 0x100) as u8
        } else {
            (self.bits % 0x100) as u8
        }
    }

    /// The address in dotted decimal.
    pub open spec fn text(self) -> Seq<char> {
        text::decimal(self.octet(0) as nat).push('.') + text::decimal(self.octet(1) as nat).push(
            '.',
        ) + text::decimal(self.octet(2) as nat).push('.') + text::decimal(self.octet(3) as nat)
    }

    pub fn new(a: u8, b: u8, c: u8, d: u8) -> (r: Self)
        ensures
            r.octet(0) == a,
            r.octet(1) == b,
            r.octet(2) == c,
            r.octet(3) == d,
            r.bits == a * 0x100_0000 + b * 0x1_0000 + c * 0x100 + d,
    {
        let bits: u32 = a as u32 * 0x100_0000 + b as u32 * 0x1_0000 + c as u32 * 0x100 + d as u32;
        proof {
            lemma_octets(bits as int, a as int, b as int, c as int, d as int);
        }
        Ipv4Addr { bits }
    }

    /// `0.0.0.0`.
    pub fn unspecified() -> (r: Self)
        ensures
            r.bits == 0,
    {
        Ipv4Addr { bits: 0 }
    }

    /// The octets, first one first.
    pub fn octets(&self) -> (r: [u8; 4])
        ensures
            forall|i: int| 0 <= i < 4 ==> r@[i] == self.octet(i),
            r@ == seq![self.octet(0), self.octet(1), self.octet(2), self.octet(3)],
    {
        let n: u32 = self.bits;
        let r: [u8; 4] = [
            (n / 0x100_0000) as u8,
            (n / 0x1_0000 % 0x100) as u8,
            (n / 0x100 % 0x100) as u8,
            (n % 0x100) as u8,
        ];
        proof {
            assert(r@ =~= seq![self.octet(0), self.octet(1), self.octet(2), self.octet(3)]);
        }
        r
    }

    fn push_text(&self, out: &mut String)
        ensures
            final(out)@ == old(out)@ + self.text(),
    {
        let o: [u8; 4] = self.octets();
        text::push_decimal(out, o[0] as u64);
        out.push('.');
        text::push_decimal(out, o[1] as u64);
        out.push('.');
        text::push_decimal(out, o[2] as u64);
        out.push('.');
        text::push_decimal(out, o[3] as u64);
        proof {
            assert(out@ =~= old(out)@ + self.text());
        }
    }
}

/// How many zeros stand in a row from position `i` on.
pub open spec fn zero_run(segs: Seq<u16>, i: int) -> nat
    decreases segs.len() - i,
{
    if 0 <= i < segs.len() && segs[i] == 0 {
        1 + zero_run(segs, i + 1)
    } else {
        0
    }
}

/// Among the positions below `n`, the first one with the longest run of zeros.
pub open spec fn longest_run(segs: Seq<u16>, n: int) -> int
    decreases n,
{
    if n <= 1 {
        0
    } else {
        let best = longest_run(segs, n - 1);
        if zero_run(segs, n - 1) > zero_run(segs, best) {
            n - 1
        } else {
            best
        }
    }
}

/// Hexadecimal groups joined by colons.
pub open spec fn groups(segs: Seq<u16>) -> Seq<char>
    decreases segs.len(),
{
    if segs.len() == 0 {
        Seq::empty()
    } else if segs.len() == 1 {
        text::hexadecimal(segs[0] as nat)
    } else {
        groups(segs.drop_last()).push(':') + text::hexadecimal(segs.last() as nat)
    }
}

impl Ipv6Addr {
    /// The 16-bit groups, the first one the most significant.
    pub open spec fn segment(self, i: int) -> u16 {
        if i == 0 {
            (self.bits / 0x1_0000_0000_0000_0000_0000_0000_0000) as u16
        } else if i == 1 {
            (self.bits / 0x1_0000_0000_0000_0000_0000_0000 % 0x1_0000) as u16
        } else if i == 2 {
            (self.bits / 0x1_0000_0000_0000_0000_0000 % 0x1_0000) as u16
        } else if i == 3 {
            (self.bits / 0x1_0000_0000_0000_0000 % 0x1_0000) as u16
        } else if i == 4 {
            (self.bits / 0x1_0000_0000_0000 % 0x1_0000) as u16
        } else if i == 5 {
            (self.bits / 0x1_0000_0000 % 0x1_0000) as u16
        } else if i == 6 {
            (self.bits / 0x1_0000 % 0x1_0000) as u16
        } else {
            (self.bits % 0x1_0000) as u16
        }
    }

    pub open spec fn segs(self) -> Seq<u16> {
        Seq::new(8, |i: int| self.segment(i))
    }

    /// Whether the address embeds an IPv4 address as `::ffff:a.b.c.d`.
    pub open spec fn is_mapped(self) -> bool {
        self.bits / 0x1_0000_0000 == 0xffff
    }

    /// The canonical text: the first longest run of at least two zero groups is
    /// written `::`, and an embedded IPv4 address is written in dotted decimal.
    pub open spec fn text(self) -> Seq<char> {
        let segs = self.segs();
        let start = longest_run(segs, 8);
        let len = zero_run(segs, start);
        if self.is_mapped() {
            seq![':', ':', 'f', 'f', 'f', 'f', ':'] + (Ipv4Addr {
                bits: (self.bits % 0x1_0000_0000) as u32,
            }).text()
        } else if len > 1 {
            groups(segs.take(start)).push(':').push(':') + groups(segs.skip(start + len))
        } else {
            groups(segs)
        }
    }

    /// `::`.
    pub fn unspecified() -> (r: Self)
        ensures
            r.bits == 0,
    {
        Ipv6Addr { bits: 0 }
    }

    /// The address whose 16 octets are given, first one first.
    pub fn from_octets(o: &[u8; 16]) -> (r: Self)
        ensures
            r.bits == from_big_endian(o@),
    {
        let mut bits: u128 = 0;
        let mut i: usize = 0;
        let ghost mut bound: int = 1;
        proof {
            vstd::arithmetic::power2::lemma2_to64();
        }
        while i < 16
            invariant
                i <= 16,
                o@.len() == 16,
                bits == from_big_endian(o@.take(i as int)),
                bits < bound,
                bound == vstd::arithmetic::power2::pow2((8 * i) as nat),
            decreases 16 - i,
        {
            proof {
                assert(o@.take(i + 1).drop_last() =~= o@.take(i as int));
                vstd::arithmetic::power2::lemma_pow2_adds((8 * i) as nat, 8);
                vstd::arithmetic::power2::lemma2_to64();
                assert(8 * i + 8 == 8 * (i + 1));
                if i < 15 {
                    vstd::arithmetic::power2::lemma_pow2_strictly_increases((8 * (i + 1)) as nat, 128);
                }
                assert(vstd::arithmetic::power2::pow2(128) == 0x1_0000_0000_0000_0000_0000_0000_0000_0000) by {
                    vstd::arithmetic::power2::lemma_pow2_adds(64, 64);
                }
                bound = bound * 256;
            }
            bits = bits * 256 + o[i] as u128;
            i = i + 1;
        }
        proof {
            assert(o@.take(16) =~= o@);
        }
        Ipv6Addr { bits }
    }

    /// The 16-bit groups, first one first.
    pub fn segments(&self) -> (r: Vec<u16>)
        ensures
            r@ == self.segs(),
    {
        let n: u128 = self.bits;
        let mut v: Vec<u16> = Vec::new();
        v.push((n / 0x1_0000_0000_0000_0000_0000_0000_0000) as u16);
        v.push((n / 0x1_0000_0000_0000_0000_0000_0000 % 0x1_0000) as u16);
        v.push((n / 0x1_0000_0000_0000_0000_0000 % 0x1_0000) as u16);
        v.push((n / 0x1_0000_0000_0000_0000 % 0x1_0000) as u16);
        v.push((n / 0x1_0000_0000_0000 % 0x1_0000) as u16);
        v.push((n / 0x1_0000_0000 % 0x1_0000) as u16);
        v.push((n / 0x1_0000 % 0x1_0000) as u16);
        v.push((n % 0x1_0000) as u16);
        proof {
            assert(v@ =~= self.segs());
        }
        v
    }

    fn push_text(&self, out: &mut String)
        ensures
            final(out)@ == old(out)@ + self.text(),
    {
        if self.bits / 0x1_0000_0000 == 0xffff {
            out.push(':');
            out.push(':');
            out.push('f');
            out.push('f');
            out.push('f');
            out.push('f');
            out.push(':');
            let low: Ipv4Addr = Ipv4Addr { bits: (self.bits % 0x1_0000_0000) as u32 };
            low.push_text(out);
            proof {
                assert(out@ =~= old(out)@ + self.text());
            }
            return;
        }
        let segs: Vec<u16> = self.segments();
        let (start, len) = find_longest_run(&segs);
        if len > 1 {
            push_groups(out, &segs, 0, start);
            out.push(':');
            out.push(':');
            push_groups(out, &segs, start + len, 8);
            proof {
                assert(segs@.subrange(0, start as int) =~= segs@.take(start as int));
                assert(segs@.subrange(start + len, 8) =~= segs@.skip(start + len));
                assert(out@ =~= old(out)@ + self.text());
            }
        } else {
            push_groups(out, &segs, 0, 8);
            proof {
                assert(segs@.subrange(0, 8) =~= segs@);
                assert(out@ =~= old(out)@ + self.text());
            }
        }
    }
}

proof fn lemma_zero_run_bound(segs: Seq<u16>, i: int)
    requires
        0 <= i <= segs.len(),
    ensures
        zero_run(segs, i) + i <= segs.len(),
    decreases segs.len() - i,
{
    if i < segs.len() && segs[i] == 0 {
        lemma_zero_run_bound(segs, i + 1);
    }
}

fn count_zero_run(segs: &Vec<u16>, from: usize) -> (n: usize)
    requires
        from <= segs@.len(),
    ensures
        n == zero_run(segs@, from as int),
        n + from <= segs@.len(),
    decreases segs@.len() - from,
{
    if from < segs.len() && segs[from] == 0 {
        1 + count_zero_run(segs, from + 1)
    } else {
        0
    }
}

fn find_longest_run(segs: &Vec<u16>) -> (r: (usize, usize))
    requires
        segs@.len() == 8,
    ensures
        r.0 == longest_run(segs@, 8),
        r.1 == zero_run(segs@, r.0 as int),
        r.0 + r.1 <= 8,
{
    let mut best: usize = 0;
    let mut len: usize = count_zero_run(segs, 0);
    let mut i: usize = 1;
    while i < 8
        invariant
            segs@.len() == 8,
            1 <= i <= 8,
            best == longest_run(segs@, i as int),
            len == zero_run(segs@, best as int),
            best + len <= 8,
        decreases 8 - i,
    {
        let run: usize = count_zero_run(segs, i);
        if run > len {
            best = i;
            len = run;
        }
        i = i + 1;
    }
    (best, len)
}

fn push_groups(out: &mut String, segs: &Vec<u16>, from: usize, to: usize)
    requires
        from <= to <= segs@.len(),
    ensures
        final(out)@ == old(out)@ + groups(segs@.subrange(from as int, to as int)),
{
    let mut i: usize = from;
    let ghost base = out@;
    proof {
        assert(segs@.subrange(from as int, from as int) =~= Seq::<u16>::empty());
        assert(out@ =~= base + groups(segs@.subrange(from as int, from as int)));
    }
    while i < to
        invariant
            from <= i <= to <= segs@.len(),
            out@ == base + groups(segs@.subrange(from as int, i as int)),
        decreases to - i,
    {
        let ghost before = out@;
        if i > from {
            out.push(':');
        }
        text::push_numeral(out, segs[i] as u64, 16);
        proof {
            let now = segs@.subrange(from as int, i + 1);
            assert(now.drop_last() =~= segs@.subrange(from as int, i as int));
            assert(now.last() == segs@[i as int]);
            if i > from {
                assert(out@ =~= base + groups(now));
            } else {
                assert(now.drop_last() =~= Seq::<u16>::empty());
                assert(out@ =~= base + groups(now));
            }
        }
        i = i + 1;
    }
}

impl IpAddr {
    /// The canonical text of the address.
    pub open spec fn text(self) -> Seq<char> {
        match self {
            IpAddr::V4(a) => a.text(),
            IpAddr::V6(a) => a.text(),
        }
    }

    /// The canonical text of the address.
    pub fn to_string(&self) -> (r: String)
        ensures
            r@ == self.text(),
    {
        let mut out: String = String::new();
        match self {
            IpAddr::V4(a) => a.push_text(&mut out),
            IpAddr::V6(a) => a.push_text(&mut out),
        }
        proof {
            assert(out@ =~= self.text());
        }
        out
    }

    pub open spec fn unspecified_spec(self) -> bool {
        match self {
            IpAddr::V4(a) => a.bits == 0,
            IpAddr::V6(a) => a.bits == 0,
        }
    }

    /// Whether this is the all-zero address of its family.
    pub fn is_unspecified(&self) -> (r: bool)
        ensures
            r == self.unspecified_spec(),
    {
        match self {
            IpAddr::V4(a) => a.bits == 0,
            IpAddr::V6(a) => a.bits == 0,
        }
    }
}

} // verus!
