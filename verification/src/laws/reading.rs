//! Reading and writing text: names of applications, numbers, and addresses.

use vstd::arithmetic::power::pow;
use vstd::prelude::*;
use vstd::string::*;

use crate::apps;
use crate::apps::{app_key, app_name, is_blank, trim};
use crate::ip;
use crate::ip::{IpAddr, Ipv4Addr, Ipv6Addr};
use crate::parse;
use crate::parse::{parse_ip, parse_u8, split_once};
use crate::roundtrip;
use crate::text;

verus! {

/// `t` is what is left of `s` between the places, and what is cut off is
/// whitespace.
pub open spec fn cut_from(s: Seq<char>, t: Seq<char>, from: int, to: int) -> bool {
    &&& 0 <= from <= to <= s.len()
    &&& t == s.subrange(from, to)
    &&& forall|i: int| 0 <= i < from ==> apps::whitespace(#[trigger] s[i])
    &&& forall|i: int| to <= i < s.len() ==> apps::whitespace(#[trigger] s[i])
}

proof fn lemma_trimmed_start(s: Seq<char>) -> (from: int)
    ensures
        0 <= from <= s.len(),
        apps::trimmed_start(s) == s.skip(from),
        forall|i: int| 0 <= i < from ==> apps::whitespace(#[trigger] s[i]),
        from < s.len() ==> !apps::whitespace(s[from]),
    decreases s.len(),
{
    if s.len() > 0 && apps::whitespace(s[0]) {
        let tail = s.drop_first();
        let k = lemma_trimmed_start(tail);
        assert(tail.skip(k) =~= s.skip(k + 1));
        assert forall|i: int| 0 <= i < k + 1 implies apps::whitespace(#[trigger] s[i]) by {
            if i > 0 {
                assert(tail[i - 1] == s[i]);
            }
        }
        k + 1
    } else {
        assert(s.skip(0) =~= s);
        0
    }
}

proof fn lemma_trimmed_end(s: Seq<char>) -> (to: int)
    ensures
        0 <= to <= s.len(),
        apps::trimmed_end(s) == s.take(to),
        forall|i: int| to <= i < s.len() ==> apps::whitespace(#[trigger] s[i]),
        to > 0 ==> !apps::whitespace(s[to - 1]),
    decreases s.len(),
{
    if s.len() > 0 && apps::whitespace(s.last()) {
        let front = s.drop_last();
        let k = lemma_trimmed_end(front);
        assert(front.take(k) =~= s.take(k));
        assert forall|i: int| k <= i < s.len() implies apps::whitespace(#[trigger] s[i]) by {
            if i < front.len() {
                assert(front[i] == s[i]);
            }
        }
        k
    } else {
        assert(s.take(s.len() as int) =~= s);
        s.len() as int
    }
}

/// Trimming cuts off whitespace at both ends and nothing else, and leaves none
/// there.
pub proof fn trimming_cuts_whitespace(s: &str, r: String)
    requires
        call_ensures(trim, (s,), r),
    ensures
        exists|from: int, to: int| #[trigger] cut_from(s@, r@, from, to),
        r@.len() > 0 ==> !apps::whitespace(r@[0]) && !apps::whitespace(r@.last()),
{
    let from = lemma_trimmed_start(s@);
    let rest = apps::trimmed_start(s@);
    let to = lemma_trimmed_end(rest);
    assert(rest.take(to) =~= s@.subrange(from, from + to));
    assert forall|i: int| from + to <= i < s@.len() implies apps::whitespace(#[trigger] s@[i]) by {
        assert(rest[i - from] == s@[i]);
    }
    assert(cut_from(s@, r@, from, from + to));
}

/// A text is blank exactly if it has nothing but whitespace in it.
pub proof fn blank_is_all_whitespace(s: &str, r: bool)
    requires
        call_ensures(is_blank, (s,), r),
    ensures
        r <==> forall|i: int| 0 <= i < s@.len() ==> apps::whitespace(#[trigger] s@[i]),
{
    let from = lemma_trimmed_start(s@);
    let rest = apps::trimmed_start(s@);
    let to = lemma_trimmed_end(rest);
    if to > 0 {
        assert(rest[to - 1] == s@[from + to - 1]);
    } else {
        assert forall|i: int| 0 <= i < s@.len() implies apps::whitespace(#[trigger] s@[i]) by {
            if i >= from {
                assert(rest[i - from] == s@[i]);
            }
        }
    }
}

/// Applications are filed without regard to case and to surrounding whitespace.
pub proof fn keys_are_trimmed_and_lower_case(path: &str, r: String, trimmed: String)
    requires
        call_ensures(app_key, (path,), r),
        call_ensures(trim, (path,), trimmed),
    ensures
        r@ == apps::lowercase(trimmed@),
{
}

/// A character that separates the parts of a path.
pub open spec fn separator(c: char) -> bool {
    c == '\\' || c == '/'
}

proof fn lemma_unterminated(s: Seq<char>)
    ensures
        ({
            let p = apps::unterminated(s);
            &&& p.len() <= s.len()
            &&& p == s.take(p.len() as int)
            &&& forall|i: int| p.len() <= i < s.len() ==> separator(#[trigger] s[i])
            &&& p.len() > 0 ==> !separator(p.last())
        }),
    decreases s.len(),
{
    if s.len() > 0 && separator(s.last()) {
        let front = s.drop_last();
        lemma_unterminated(front);
        let p = apps::unterminated(s);
        assert(front.take(p.len() as int) =~= s.take(p.len() as int));
        assert forall|i: int| p.len() <= i < s.len() implies separator(#[trigger] s[i]) by {
            if i < front.len() {
                assert(front[i] == s[i]);
            }
        }
    } else {
        assert(s.take(s.len() as int) =~= s);
    }
}

proof fn lemma_after_separator(s: Seq<char>)
    ensures
        ({
            let t = apps::after_separator(s);
            &&& t.len() <= s.len()
            &&& t == s.skip(s.len() - t.len())
            &&& forall|i: int| 0 <= i < t.len() ==> !separator(#[trigger] t[i])
            &&& t.len() < s.len() ==> separator(s[s.len() - t.len() - 1])
        }),
    decreases s.len(),
{
    let t = apps::after_separator(s);
    if s.len() > 0 && !separator(s.last()) {
        let front = s.drop_last();
        lemma_after_separator(front);
        let u = apps::after_separator(front);
        assert(t =~= s.skip(s.len() - t.len())) by {
            assert(u == front.skip(front.len() - u.len()));
        }
        assert forall|i: int| 0 <= i < t.len() implies !separator(#[trigger] t[i]) by {
            if i < u.len() {
                assert(t[i] == u[i]);
            }
        }
        if t.len() < s.len() {
            assert(s[s.len() - t.len() - 1] == front[front.len() - u.len() - 1]);
        }
    } else {
        assert(t =~= s.skip(s.len() as int));
    }
}

/// `name` is the part of a path between the places: no separator in it, one
/// before it unless it stands first, and only separators after it.
pub open spec fn last_part(path: Seq<char>, name: Seq<char>, from: int, to: int) -> bool {
    &&& 0 <= from < to <= path.len()
    &&& name == path.subrange(from, to)
    &&& forall|i: int| from <= i < to ==> !separator(#[trigger] path[i])
    &&& forall|i: int| to <= i < path.len() ==> separator(#[trigger] path[i])
    &&& from > 0 ==> separator(path[from - 1])
}

/// The short name of an application is the last part of its path, or the whole
/// path where that is made of separators alone.
pub proof fn name_is_the_last_part(path: &str, r: String)
    requires
        call_ensures(app_name, (path,), r),
    ensures
        (forall|i: int| 0 <= i < path@.len() ==> separator(#[trigger] path@[i])) ==> r@ == path@,
        !(forall|i: int| 0 <= i < path@.len() ==> separator(#[trigger] path@[i])) ==> exists|
            from: int,
            to: int,
        | #[trigger] last_part(path@, r@, from, to),
{
    let s = path@;
    let p = apps::unterminated(s);
    lemma_unterminated(s);
    lemma_after_separator(p);
    if p.len() > 0 {
        let t = apps::after_separator(p);
        let from = p.len() - t.len();
        let to = p.len() as int;
        assert(p.last() == s[to - 1]);
        if t.len() == 0 {
            assert(separator(p[p.len() - 1]));
        }
        assert(t =~= s.subrange(from, to));
        assert forall|i: int| from <= i < to implies !separator(#[trigger] s[i]) by {
            assert(t[i - from] == s[i]);
        }
        if from > 0 {
            assert(p[from - 1] == s[from - 1]);
        }
        assert(last_part(s, t, from, to));
    }
}

/// A decimal digit.
pub open spec fn is_digit(c: char) -> bool {
    '0' <= c && c <= '9'
}

/// The number that decimal digits stand for.
pub open spec fn number(s: Seq<char>) -> int
    decreases s.len(),
{
    if s.len() == 0 {
        0
    } else {
        10 * number(s.drop_last()) + (s.last() as int - '0' as int)
    }
}

/// Nothing but decimal digits.
pub open spec fn all_digits(s: Seq<char>) -> bool {
    forall|i: int| 0 <= i < s.len() ==> is_digit(#[trigger] s[i])
}

/// The text without a plus sign in front.
pub open spec fn unsigned(s: Seq<char>) -> Seq<char> {
    if s.len() > 0 && s[0] == '+' {
        s.skip(1)
    } else {
        s
    }
}

proof fn lemma_number(s: Seq<char>)
    ensures
        parse::value_of(s, 10) is Some <==> all_digits(s),
        parse::value_of(s, 10) matches Some(v) ==> v == number(s),
    decreases s.len(),
{
    if s.len() > 0 {
        let front = s.drop_last();
        lemma_number(front);
        if parse::value_of(front, 10) is Some {
            assert forall|i: int| 0 <= i < s.len() - 1 implies is_digit(#[trigger] s[i]) by {
                assert(front[i] == s[i]);
            }
        } else {
            let i = choose|i: int| 0 <= i < front.len() && !is_digit(#[trigger] front[i]);
            assert(!is_digit(s[i]));
        }
        if parse::value_of(s, 10) is None && parse::value_of(front, 10) is Some {
            assert(!is_digit(s[s.len() - 1]));
        }
    }
}

/// A small number is read exactly if the text is one or more decimal digits,
/// with a plus sign in front or without, and their number is at most 255.
pub proof fn small_numbers_are_read(s: &str, r: Option<u8>)
    requires
        call_ensures(parse_u8, (s,), r),
    ensures
        r is Some <==> unsigned(s@).len() > 0 && all_digits(unsigned(s@)) && number(unsigned(s@))
            <= 255,
        r matches Some(v) ==> v == number(unsigned(s@)),
{
    let digits = unsigned(s@);
    if s@.len() > 0 {
        assert(s@.skip(1) =~= s@.drop_first());
    }
    lemma_number(digits);
}

proof fn lemma_split(s: Seq<char>, sep: char)
    ensures
        match parse::split_at_first(s, sep) {
            Some((a, b)) => s == a + seq![sep] + b && forall|i: int|
                0 <= i < a.len() ==> #[trigger] a[i] != sep,
            None => forall|i: int| 0 <= i < s.len() ==> #[trigger] s[i] != sep,
        },
    decreases s.len(),
{
    if s.len() > 0 {
        if s[0] == sep {
            assert(Seq::<char>::empty() + seq![sep] + s.drop_first() =~= s);
        } else {
            let tail = s.drop_first();
            lemma_split(tail, sep);
            match parse::split_at_first(tail, sep) {
                Some((a, b)) => {
                    assert(seq![s[0]] + a + seq![sep] + b =~= s) by {
                        assert(seq![s[0]] + tail =~= s);
                        assert(seq![s[0]] + (a + seq![sep] + b) =~= seq![s[0]] + a + seq![sep] + b);
                    }
                    assert forall|i: int| 0 <= i < (seq![s[0]] + a).len() implies #[trigger] (seq![
                        s[0],
                    ] + a)[i] != sep by {
                        if i > 0 {
                            assert((seq![s[0]] + a)[i] == a[i - 1]);
                        }
                    }
                },
                None => {
                    assert forall|i: int| 0 <= i < s.len() implies #[trigger] s[i] != sep by {
                        if i > 0 {
                            assert(tail[i - 1] == s[i]);
                        }
                    }
                },
            }
        }
    }
}

/// A text is split at the first separator: what stands before it, where there is
/// none, and what stands after it. Without one it is not split.
pub proof fn texts_are_split_at_the_first_separator(
    s: &str,
    sep: char,
    r: Option<(String, String)>,
)
    requires
        call_ensures(split_once, (s, sep), r),
    ensures
        r matches Some((a, b)) ==> s@ == a@ + seq![sep] + b@ && forall|i: int|
            0 <= i < a@.len() ==> #[trigger] a@[i] != sep,
        r is None ==> forall|i: int| 0 <= i < s@.len() ==> #[trigger] s@[i] != sep,
{
    lemma_split(s@, sep);
}

/// Every address is read back from its own text, whatever its family.
pub proof fn addresses_are_read_back(a: IpAddr, written: String, s: &str, read: Option<IpAddr>)
    requires
        call_ensures(IpAddr::to_string, (&a,), written),
        s@ == written@,
        call_ensures(parse_ip, (s,), read),
    ensures
        read == Some(a),
{
    roundtrip::written_address_reads_back(a);
}

/// An IPv4 address is written as its four bytes in decimal, from the most
/// significant on, with dots in between.
pub proof fn ipv4_is_written_in_dotted_decimal(
    a: u8,
    b: u8,
    c: u8,
    d: u8,
    made: Ipv4Addr,
    octets: [u8; 4],
    written: String,
)
    requires
        call_ensures(Ipv4Addr::new, (a, b, c, d), made),
        call_ensures(Ipv4Addr::octets, (&made,), octets),
        call_ensures(IpAddr::to_string, (&IpAddr::V4(made),), written),
    ensures
        made.bits == 0x100_0000 * a + 0x1_0000 * b + 0x100 * c + d,
        octets@ == seq![a, b, c, d],
        written@ == text::decimal(a as nat) + seq!['.'] + text::decimal(b as nat) + seq!['.']
            + text::decimal(c as nat) + seq!['.'] + text::decimal(d as nat),
{
    assert(octets@ =~= seq![a, b, c, d]);
    assert(written@ =~= text::decimal(a as nat) + seq!['.'] + text::decimal(b as nat) + seq!['.']
        + text::decimal(c as nat) + seq!['.'] + text::decimal(d as nat));
}

/// Which addresses are unspecified: `0.0.0.0` and `::`.
pub proof fn unspecified_is_all_zero(a: IpAddr, r: bool, z4: Ipv4Addr, z6: Ipv6Addr)
    requires
        call_ensures(IpAddr::is_unspecified, (&a,), r),
        call_ensures(Ipv4Addr::unspecified, (), z4),
        call_ensures(Ipv6Addr::unspecified, (), z6),
    ensures
        r <==> a == IpAddr::V4(z4) || a == IpAddr::V6(z6),
        z4.bits == 0,
        z6.bits == 0,
{
}

proof fn lemma_big_endian(b: Seq<u8>, i: int)
    requires
        0 <= i < b.len(),
    ensures
        (ip::from_big_endian(b) as int / pow(256, (b.len() - 1 - i) as nat)) % 256 == b[i],
    decreases b.len(),
{
    let n = ip::from_big_endian(b) as int;
    let front = b.drop_last();
    let m = ip::from_big_endian(front) as int;
    vstd::arithmetic::div_mod::lemma_fundamental_div_mod_converse(n, 256, m, b.last() as int);
    if i == b.len() - 1 {
        vstd::arithmetic::power::lemma_pow0(256);
        assert(n / 1 == n);
    } else {
        let k = (b.len() - 2 - i) as nat;
        lemma_big_endian(front, i);
        vstd::arithmetic::power::lemma_pow_positive(256, k);
        vstd::arithmetic::div_mod::lemma_div_denominator(n, 256, pow(256, k));
        assert(pow(256, k + 1) == 256 * pow(256, k)) by {
            reveal(pow);
        }
        assert(front[i] == b[i]);
    }
}

/// The bytes of an IPv6 address are given from the most significant on.
pub proof fn ipv6_bytes_are_in_network_order(o: [u8; 16], a: Ipv6Addr, i: int)
    requires
        call_ensures(Ipv6Addr::from_octets, (&o,), a),
        0 <= i < 16,
    ensures
        (a.bits as int / pow(256, (15 - i) as nat)) % 256 == o@[i],
{
    lemma_big_endian(o@, i);
}

/// The groups of an IPv6 address, from the most significant on.
pub proof fn ipv6_groups_are_in_order(a: Ipv6Addr, r: Vec<u16>)
    requires
        call_ensures(Ipv6Addr::segments, (&a,), r),
    ensures
        r@.len() == 8,
        a.bits as int == r@[7] + 0x1_0000 * (r@[6] + 0x1_0000 * (r@[5] + 0x1_0000 * (r@[4]
            + 0x1_0000 * (r@[3] + 0x1_0000 * (r@[2] + 0x1_0000 * (r@[1] + 0x1_0000 * r@[0])))))),
{
    let n = a.bits as int;
    let q1 = n / 0x1_0000;
    let q2 = n / 0x1_0000_0000;
    let q3 = n / 0x1_0000_0000_0000;
    let q4 = n / 0x1_0000_0000_0000_0000;
    let q5 = n / 0x1_0000_0000_0000_0000_0000;
    let q6 = n / 0x1_0000_0000_0000_0000_0000_0000;
    let q7 = n / 0x1_0000_0000_0000_0000_0000_0000_0000;
    vstd::arithmetic::div_mod::lemma_div_denominator(n, 0x1_0000, 0x1_0000);
    vstd::arithmetic::div_mod::lemma_div_denominator(n, 0x1_0000_0000, 0x1_0000);
    vstd::arithmetic::div_mod::lemma_div_denominator(n, 0x1_0000_0000_0000, 0x1_0000);
    vstd::arithmetic::div_mod::lemma_div_denominator(n, 0x1_0000_0000_0000_0000, 0x1_0000);
    vstd::arithmetic::div_mod::lemma_div_denominator(n, 0x1_0000_0000_0000_0000_0000, 0x1_0000);
    vstd::arithmetic::div_mod::lemma_div_denominator(
        n,
        0x1_0000_0000_0000_0000_0000_0000,
        0x1_0000,
    );
    assert(r@[0] == q7 && q6 == r@[1] + 0x1_0000 * q7 && q5 == r@[2] + 0x1_0000 * q6 && q4 == r@[3]
        + 0x1_0000 * q5 && q3 == r@[4] + 0x1_0000 * q4 && q2 == r@[5] + 0x1_0000 * q3 && q1
        == r@[6] + 0x1_0000 * q2 && n == r@[7] + 0x1_0000 * q1);
}

/// The parts with the separator in between.
pub open spec fn joined_by(parts: Seq<Seq<char>>, sep: char) -> Seq<char>
    decreases parts.len(),
{
    if parts.len() == 0 {
        Seq::empty()
    } else if parts.len() == 1 {
        parts[0]
    } else {
        joined_by(parts.drop_last(), sep) + seq![sep] + parts.last()
    }
}

proof fn lemma_pieces_joined(s: Seq<char>, sep: char)
    ensures
        parse::pieces(s, sep).len() >= 1,
        joined_by(parse::pieces(s, sep), sep) == s,
    decreases s.len(),
{
    let p = parse::pieces(s, sep);
    if s.len() == 0 {
        assert(joined_by(p, sep) =~= s);
    } else {
        let front = s.drop_last();
        lemma_pieces_joined(front, sep);
        let q = parse::pieces(front, sep);
        if s.last() == sep {
            assert(p.drop_last() =~= q);
            assert(front + seq![sep] + Seq::<char>::empty() =~= s);
        } else {
            assert(p.drop_last() =~= q.drop_last());
            if q.len() == 1 {
                assert(front.push(s.last()) =~= s);
            } else {
                assert(joined_by(q.drop_last(), sep) + seq![sep] + q.last().push(s.last())
                    =~= front.push(s.last()));
                assert(front.push(s.last()) =~= s);
            }
        }
    }
}

proof fn lemma_leading_digit(s: Seq<char>)
    requires
        s.len() > 0,
        s[0] != '0',
        parse::value_of(s, 10) is Some,
    ensures
        parse::value_of(s, 10)->0 > 0,
    decreases s.len(),
{
    if s.len() > 1 {
        lemma_leading_digit(s.drop_last());
    } else {
        assert(parse::value_of(s.drop_last(), 10) == Some(0nat));
    }
}

/// Without needless zeros there is one decimal text for each number.
proof fn lemma_one_decimal(s: Seq<char>)
    requires
        s.len() > 0,
        s.len() > 1 ==> s[0] != '0',
        parse::value_of(s, 10) is Some,
    ensures
        s == text::decimal(parse::value_of(s, 10)->0),
    decreases s.len(),
{
    let v = parse::value_of(s, 10)->0;
    let front = s.drop_last();
    let d = parse::digit_value(s.last(), 10)->0;
    assert(text::digit(d as int) == s.last());
    if s.len() == 1 {
        assert(parse::value_of(front, 10) == Some(0nat));
        assert(s =~= seq![s.last()]);
    } else {
        lemma_leading_digit(front);
        lemma_one_decimal(front);
        let w = parse::value_of(front, 10)->0;
        assert(v == w * 10 + d);
        assert(v / 10 == w && v % 10 == d);
        assert(s =~= front.push(s.last()));
    }
}

proof fn lemma_octet_text(s: Seq<char>)
    requires
        parse::octet_of(s) is Some,
    ensures
        s == text::decimal(parse::octet_of(s)->0),
        parse::octet_of(s)->0 <= 255,
{
    lemma_one_decimal(s);
}

proof fn lemma_octets(n: int, a: int, b: int, c: int, d: int)
    requires
        0 <= a < 256,
        0 <= b < 256,
        0 <= c < 256,
        0 <= d < 256,
        n == a * 0x100_0000 + b * 0x1_0000 + c * 0x100 + d,
    ensures
        n / 0x100_0000 == a,
        n / 0x1_0000 % 0x100 == b,
        n / 0x100 % 0x100 == c,
        n % 0x100 == d,
{
    vstd::arithmetic::div_mod::lemma_fundamental_div_mod_converse(
        n,
        0x100_0000,
        a,
        b * 0x1_0000 + c * 0x100 + d,
    );
    vstd::arithmetic::div_mod::lemma_fundamental_div_mod_converse(
        n,
        0x1_0000,
        a * 0x100 + b,
        c * 0x100 + d,
    );
    vstd::arithmetic::div_mod::lemma_fundamental_div_mod_converse(
        n,
        0x100,
        a * 0x1_0000 + b * 0x100 + c,
        d,
    );
    vstd::arithmetic::div_mod::lemma_fundamental_div_mod_converse(a * 0x100 + b, 0x100, a, b);
    vstd::arithmetic::div_mod::lemma_fundamental_div_mod_converse(
        a * 0x1_0000 + b * 0x100 + c,
        0x100,
        a * 0x100 + b,
        c,
    );
}

/// A text is read as an IPv4 address exactly if it is the text of that address:
/// four numbers up to 255 without needless zeros, with dots in between.
pub proof fn ipv4_has_one_text(s: &str, r: Option<IpAddr>, a: Ipv4Addr)
    requires
        call_ensures(parse_ip, (s,), r),
    ensures
        r == Some(IpAddr::V4(a)) <==> s@ == a.text(),
{
    if s@ == a.text() {
        roundtrip::written_address_reads_back(IpAddr::V4(a));
    }
    if r == Some(IpAddr::V4(a)) {
        let p = parse::pieces(s@, '.');
        assert(parse::v4_of(s@) == Some(a));
        lemma_pieces_joined(s@, '.');
        lemma_octet_text(p[0]);
        lemma_octet_text(p[1]);
        lemma_octet_text(p[2]);
        lemma_octet_text(p[3]);
        let x0 = parse::octet_of(p[0])->0 as int;
        let x1 = parse::octet_of(p[1])->0 as int;
        let x2 = parse::octet_of(p[2])->0 as int;
        let x3 = parse::octet_of(p[3])->0 as int;
        assert(a.bits == x0 * 0x100_0000 + x1 * 0x1_0000 + x2 * 0x100 + x3);
        lemma_octets(a.bits as int, x0, x1, x2, x3);
        let q3 = p.drop_last();
        let q2 = q3.drop_last();
        let q1 = q2.drop_last();
        assert(joined_by(q1, '.') == p[0]);
        assert(joined_by(q2, '.') == p[0] + seq!['.'] + p[1]);
        assert(joined_by(q3, '.') == p[0] + seq!['.'] + p[1] + seq!['.'] + p[2]);
        assert(joined_by(p, '.') == p[0] + seq!['.'] + p[1] + seq!['.'] + p[2] + seq!['.'] + p[3]);
        assert(s@ =~= a.text());
    }
}

/// Groups in lower-case hexadecimal with colons in between.
pub open spec fn hex_list(segs: Seq<u16>) -> Seq<char> {
    joined_by(segs.map_values(|g: u16| text::hexadecimal(g as nat)), ':')
}

proof fn lemma_hex_list(segs: Seq<u16>)
    ensures
        ip::groups(segs) == hex_list(segs),
    decreases segs.len(),
{
    let parts = segs.map_values(|g: u16| text::hexadecimal(g as nat));
    if segs.len() > 1 {
        let front = segs.drop_last();
        lemma_hex_list(front);
        assert(parts.drop_last() =~= front.map_values(|g: u16| text::hexadecimal(g as nat)));
        assert(ip::groups(segs) =~= hex_list(front) + seq![':'] + parts.last());
    }
}

/// `n` groups of zeros from `i` on.
pub open spec fn zeros_at(segs: Seq<u16>, i: int, n: int) -> bool {
    &&& 0 <= i
    &&& 0 <= n
    &&& i + n <= segs.len()
    &&& forall|j: int| i <= j < i + n ==> #[trigger] segs[j] == 0
}

proof fn lemma_zero_run(segs: Seq<u16>, i: int, n: int)
    requires
        0 <= i <= segs.len(),
    ensures
        zeros_at(segs, i, ip::zero_run(segs, i) as int),
        zeros_at(segs, i, n) ==> n <= ip::zero_run(segs, i),
    decreases segs.len() - i,
{
    if i < segs.len() && segs[i] == 0 {
        lemma_zero_run(segs, i + 1, n - 1);
        if zeros_at(segs, i, n) && n > 0 {
            assert(zeros_at(segs, i + 1, n - 1));
        }
    } else if zeros_at(segs, i, n) && n > 0 {
        assert(segs[i] == 0);
    }
}

proof fn lemma_longest(segs: Seq<u16>, n: int, j: int)
    requires
        1 <= n <= segs.len(),
    ensures
        0 <= ip::longest_run(segs, n) < n,
        0 <= j < n ==> ip::zero_run(segs, j) <= ip::zero_run(segs, ip::longest_run(segs, n)),
        0 <= j < ip::longest_run(segs, n) ==> ip::zero_run(segs, j) < ip::zero_run(
            segs,
            ip::longest_run(segs, n),
        ),
    decreases n,
{
    if n > 1 {
        lemma_longest(segs, n - 1, j);
        lemma_longest(segs, n - 1, ip::longest_run(segs, n - 1));
    }
}

/// The run of zeros that is left out in writing: at least two groups, none
/// longer, and none as long before it.
pub open spec fn left_out(segs: Seq<u16>, i: int, n: int) -> bool {
    &&& n >= 2
    &&& zeros_at(segs, i, n)
    &&& forall|j: int, m: int| #[trigger]
        zeros_at(segs, j, m) ==> m < n || (m == n && j >= i)
}

/// An IPv6 address is written as its groups in hexadecimal; the first of the
/// longest runs of two or more zero groups is left out. An IPv4 address within it
/// is written as such.
pub proof fn ipv6_is_written_short(a: Ipv6Addr, segs: Vec<u16>, written: String)
    requires
        call_ensures(Ipv6Addr::segments, (&a,), segs),
        call_ensures(IpAddr::to_string, (&IpAddr::V6(a),), written),
    ensures
        ({
            let g = segs@;
            let embeds = zeros_at(g, 0, 5) && g[5] == 0xffff;
            &&& g.len() == 8
            &&& embeds ==> written@ == seq![':', ':', 'f', 'f', 'f', 'f', ':'] + text::decimal(
                (g[6] / 256) as nat,
            ) + seq!['.'] + text::decimal((g[6] % 256) as nat) + seq!['.'] + text::decimal(
                (g[7] / 256) as nat,
            ) + seq!['.'] + text::decimal((g[7] % 256) as nat)
            &&& !embeds ==> (written@ == hex_list(g) && forall|j: int, m: int| #[trigger]
                zeros_at(g, j, m) ==> m < 2) || exists|i: int, n: int| #[trigger]
                left_out(g, i, n) && written@ == hex_list(g.take(i)) + seq![':', ':'] + hex_list(
                    g.skip(i + n),
                )
        }),
{
    let g = segs@;
    ipv6_groups_are_in_order(a, segs);
    let embeds = zeros_at(g, 0, 5) && g[5] == 0xffff;
    let top = g[5] + 0x1_0000 * (g[4] + 0x1_0000 * (g[3] + 0x1_0000 * (g[2] + 0x1_0000 * (g[1]
        + 0x1_0000 * g[0]))));
    let low = g[7] + 0x1_0000 * g[6];
    assert(a.bits as int == low + 0x1_0000_0000 * top);
    vstd::arithmetic::div_mod::lemma_fundamental_div_mod_converse(
        a.bits as int,
        0x1_0000_0000,
        top,
        low,
    );
    assert(a.is_mapped() <==> embeds) by {
        if embeds {
            assert(g[0] == 0 && g[1] == 0 && g[2] == 0 && g[3] == 0 && g[4] == 0);
        }
        if a.is_mapped() {
            assert(g[4] == 0 && g[3] == 0 && g[2] == 0 && g[1] == 0 && g[0] == 0);
        }
    }
    if embeds {
        let v = Ipv4Addr { bits: low as u32 };
        lemma_octets(
            low,
            (g[6] / 256) as int,
            (g[6] % 256) as int,
            (g[7] / 256) as int,
            (g[7] % 256) as int,
        );
        assert(written@ =~= seq![':', ':', 'f', 'f', 'f', 'f', ':'] + text::decimal(
            (g[6] / 256) as nat,
        ) + seq!['.'] + text::decimal((g[6] % 256) as nat) + seq!['.'] + text::decimal(
            (g[7] / 256) as nat,
        ) + seq!['.'] + text::decimal((g[7] % 256) as nat));
    } else {
        let i = ip::longest_run(g, 8);
        let n = ip::zero_run(g, i) as int;
        lemma_longest(g, 8, 0);
        lemma_zero_run(g, i, n);
        assert forall|j: int, m: int| #[trigger] zeros_at(g, j, m) implies m < n || (m == n && (j
            >= i || n == 0)) by {
            lemma_zero_run(g, j, m);
            lemma_longest(g, 8, j);
        }
        lemma_hex_list(g);
        lemma_hex_list(g.take(i));
        lemma_hex_list(g.skip(i + n));
        if n > 1 {
            assert(left_out(g, i, n));
            assert(written@ =~= hex_list(g.take(i)) + seq![':', ':'] + hex_list(g.skip(i + n)));
        }
    }
}

/// A hexadecimal digit.
pub open spec fn is_hex(c: char) -> bool {
    ('0' <= c && c <= '9') || ('a' <= c && c <= 'f') || ('A' <= c && c <= 'F')
}

/// The value of a hexadecimal digit, in either case.
pub open spec fn hex_value(c: char) -> int {
    if c <= '9' {
        c as int - '0' as int
    } else if c <= 'F' {
        c as int - 'A' as int + 10
    } else {
        c as int - 'a' as int + 10
    }
}

/// A group: one to four hexadecimal digits.
pub open spec fn is_group(s: Seq<char>) -> bool {
    1 <= s.len() <= 4 && forall|i: int| 0 <= i < s.len() ==> is_hex(#[trigger] s[i])
}

/// Nothing but groups.
pub open spec fn all_groups(g: Seq<Seq<char>>) -> bool {
    forall|i: int| 0 <= i < g.len() ==> is_group(#[trigger] g[i])
}

/// The number that hexadecimal digits stand for.
pub open spec fn hex_number(s: Seq<char>) -> int
    decreases s.len(),
{
    if s.len() == 0 {
        0
    } else {
        16 * hex_number(s.drop_last()) + hex_value(s.last())
    }
}

/// The number that groups stand for, the most significant one first.
pub open spec fn groups_number(g: Seq<Seq<char>>) -> int
    decreases g.len(),
{
    if g.len() == 0 {
        0
    } else {
        0x1_0000 * groups_number(g.drop_last()) + hex_number(g.last())
    }
}

proof fn lemma_hex_number(s: Seq<char>)
    requires
        forall|i: int| 0 <= i < s.len() ==> is_hex(#[trigger] s[i]),
    ensures
        hex_number(s) >= 0,
        parse::value_of(s, 16) == Some(hex_number(s) as nat),
    decreases s.len(),
{
    if s.len() > 0 {
        let front = s.drop_last();
        assert forall|i: int| 0 <= i < front.len() implies is_hex(#[trigger] front[i]) by {
            assert(front[i] == s[i]);
        }
        lemma_hex_number(front);
        assert(is_hex(s[s.len() - 1]));
    }
}

spec fn values(g: Seq<Seq<char>>) -> Seq<nat> {
    g.map_values(|s: Seq<char>| hex_number(s) as nat)
}

proof fn lemma_group_list(g: Seq<Seq<char>>, embedded: bool)
    requires
        all_groups(g),
    ensures
        parse::group_list(g, embedded) == Some(values(g)),
        groups_number(g) >= 0,
        parse::joined(values(g)) == groups_number(g),
    decreases g.len(),
{
    if g.len() == 0 {
        assert(values(g) =~= Seq::<nat>::empty());
    } else {
        let front = g.drop_last();
        assert forall|i: int| 0 <= i < front.len() implies is_group(#[trigger] front[i]) by {
            assert(front[i] == g[i]);
        }
        lemma_group_list(front, false);
        assert(is_group(g[g.len() - 1]));
        lemma_hex_number(g.last());
        assert(values(g).drop_last() =~= values(front));
        assert(values(g) =~= values(front).push(hex_number(g.last()) as nat));
    }
}

/// How groups with colons in between look: hexadecimal digits and single colons
/// that stand between them.
spec fn grouped(s: Seq<char>) -> bool {
    &&& forall|i: int| 0 <= i < s.len() ==> is_hex(#[trigger] s[i]) || s[i] == ':'
    &&& forall|i: int|
        0 <= i < s.len() && #[trigger] s[i] == ':' ==> i + 1 < s.len() && is_hex(s[i + 1])
}

proof fn lemma_grouped(g: Seq<Seq<char>>)
    requires
        g.len() > 0,
        all_groups(g),
    ensures
        grouped(joined_by(g, ':')),
        parse::pieces(joined_by(g, ':'), ':') == g,
        joined_by(g, ':').len() > 0,
    decreases g.len(),
{
    let s = joined_by(g, ':');
    assert(is_group(g[g.len() - 1]));
    let b = g.last();
    if g.len() == 1 {
        roundtrip::lemma_pieces_one(s, ':');
        assert(seq![s] =~= g);
    } else {
        let front = g.drop_last();
        assert forall|i: int| 0 <= i < front.len() implies is_group(#[trigger] front[i]) by {
            assert(front[i] == g[i]);
        }
        lemma_grouped(front);
        let a = joined_by(front, ':');
        assert(s =~= a.push(':') + b);
        roundtrip::lemma_pieces_join(a, b, ':');
        assert(front.push(b) =~= g);
        assert forall|i: int| 0 <= i < s.len() implies is_hex(#[trigger] s[i]) || s[i] == ':' by {
            if i < a.len() {
                assert(s[i] == a[i]);
            } else if i > a.len() {
                assert(s[i] == b[i - a.len() - 1]);
            }
        }
        assert forall|i: int| 0 <= i < s.len() && #[trigger] s[i] == ':' implies i + 1 < s.len()
            && is_hex(s[i + 1]) by {
            if i < a.len() {
                assert(s[i] == a[i]);
                assert(s[i + 1] == a[i + 1]);
            } else if i == a.len() {
                assert(s[i + 1] == b[0]);
            } else {
                assert(s[i] == b[i - a.len() - 1]);
            }
        }
    }
}

proof fn lemma_no_dots(s: Seq<char>)
    requires
        forall|i: int| 0 <= i < s.len() ==> is_hex(#[trigger] s[i]) || s[i] == ':',
    ensures
        parse::v4_of(s) is None,
{
    roundtrip::lemma_pieces_one(s, '.');
}

proof fn lemma_gap(s: Seq<char>, i: int, k: int)
    requires
        0 <= i <= k,
        forall|j: int| i <= j < k ==> !#[trigger] parse::gap_at(s, j),
        k + 1 >= s.len() || parse::gap_at(s, k),
    ensures
        parse::first_gap(s, i) == if parse::gap_at(s, k) {
            Some(k)
        } else {
            None
        },
    decreases k - i,
{
    if i < k {
        assert(!parse::gap_at(s, i));
        if i + 1 < s.len() {
            lemma_gap(s, i + 1, k);
        }
    }
}

/// Groups with colons in between are an IPv6 address exactly if there are eight;
/// it is the one of these groups.
pub proof fn ipv6_is_read_from_its_groups(g: Seq<Seq<char>>, s: &str, r: Option<IpAddr>)
    requires
        g.len() > 0,
        all_groups(g),
        s@ == joined_by(g, ':'),
        call_ensures(parse_ip, (s,), r),
    ensures
        g.len() == 8 ==> (r matches Some(IpAddr::V6(a)) && a.bits == groups_number(g)),
        g.len() != 8 ==> r is None,
{
    lemma_grouped(g);
    lemma_no_dots(s@);
    assert forall|j: int| 0 <= j < s@.len() implies !#[trigger] parse::gap_at(s@, j) by {
    }
    lemma_gap(s@, 0, s@.len() as int);
    lemma_group_list(g, true);
    if g.len() == 8 {
        lemma_groups_fit(g);
    }
}

proof fn lemma_groups_fit(g: Seq<Seq<char>>)
    requires
        g.len() == 8,
        all_groups(g),
    ensures
        0 <= groups_number(g) <= u128::MAX,
{
    lemma_groups_bound(g);
    vstd::arithmetic::power::lemma_pow0(0x1_0000);
    assert(pow(0x1_0000, 8) == 0x1_0000_0000_0000_0000_0000_0000_0000_0000) by {
        reveal_with_fuel(pow, 9);
    }
}

proof fn lemma_hex_bound(s: Seq<char>)
    requires
        forall|i: int| 0 <= i < s.len() ==> is_hex(#[trigger] s[i]),
    ensures
        0 <= hex_number(s) < pow(16, s.len()),
    decreases s.len(),
{
    reveal(pow);
    if s.len() > 0 {
        let front = s.drop_last();
        assert forall|i: int| 0 <= i < front.len() implies is_hex(#[trigger] front[i]) by {
            assert(front[i] == s[i]);
        }
        lemma_hex_bound(front);
        assert(is_hex(s[s.len() - 1]));
    }
}

proof fn lemma_groups_bound(g: Seq<Seq<char>>)
    requires
        all_groups(g),
    ensures
        0 <= groups_number(g) < pow(0x1_0000, g.len()),
    decreases g.len(),
{
    reveal(pow);
    if g.len() > 0 {
        let front = g.drop_last();
        assert forall|i: int| 0 <= i < front.len() implies is_group(#[trigger] front[i]) by {
            assert(front[i] == g[i]);
        }
        lemma_groups_bound(front);
        let last = g[g.len() - 1];
        assert(is_group(last));
        lemma_hex_bound(last);
        vstd::arithmetic::power::lemma_pow_increases(16, last.len(), 4);
        assert(pow(16, 4) == 0x1_0000) by {
            reveal_with_fuel(pow, 5);
        }
    }
}

/// As many groups of zeros.
pub open spec fn zero_groups(n: nat) -> Seq<Seq<char>> {
    Seq::new(n, |i: int| seq!['0'])
}

/// Where two colons stand between groups, they stand for as many groups of zeros
/// as are missing to eight, at least one; with eight groups or more besides there
/// is no address.
pub proof fn ipv6_gap_stands_for_zeros(
    head: Seq<Seq<char>>,
    tail: Seq<Seq<char>>,
    s: &str,
    r: Option<IpAddr>,
)
    requires
        all_groups(head),
        all_groups(tail),
        s@ == joined_by(head, ':') + seq![':', ':'] + joined_by(tail, ':'),
        call_ensures(parse_ip, (s,), r),
    ensures
        head.len() + tail.len() <= 7 ==> (r matches Some(IpAddr::V6(a)) && a.bits == groups_number(
            head + zero_groups((8 - head.len() - tail.len()) as nat) + tail,
        )),
        head.len() + tail.len() > 7 ==> r is None,
{
    let h = joined_by(head, ':');
    let t = joined_by(tail, ':');
    let k = h.len() as int;
    if head.len() > 0 {
        lemma_grouped(head);
    }
    if tail.len() > 0 {
        lemma_grouped(tail);
    }
    assert forall|i: int| 0 <= i < s@.len() implies is_hex(#[trigger] s@[i]) || s@[i] == ':' by {
        if i < k {
            assert(s@[i] == h[i]);
        } else if i >= k + 2 {
            assert(s@[i] == t[i - k - 2]);
        }
    }
    lemma_no_dots(s@);
    assert forall|j: int| 0 <= j < k implies !#[trigger] parse::gap_at(s@, j) by {
        assert(s@[j] == h[j]);
        if h[j] == ':' {
            assert(s@[j + 1] == h[j + 1]);
        }
    }
    assert(s@[k] == ':' && s@[k + 1] == ':');
    lemma_gap(s@, 0, k);
    assert(s@.take(k) =~= h);
    assert(s@.skip(k + 2) =~= t);
    lemma_group_list(head, false);
    lemma_group_list(tail, true);
    assert(head.len() == 0 ==> values(head) =~= Seq::<nat>::empty());
    assert(tail.len() == 0 ==> values(tail) =~= Seq::<nat>::empty());
    if head.len() + tail.len() <= 7 {
        let n = (8 - head.len() - tail.len()) as nat;
        let all = head + zero_groups(n) + tail;
        assert forall|i: int| 0 <= i < all.len() implies is_group(#[trigger] all[i]) by {
            if i < head.len() {
                assert(all[i] == head[i]);
            } else if i >= head.len() + n {
                assert(all[i] == tail[i - head.len() - n]);
            } else {
                assert(all[i] == seq!['0']);
            }
        }
        lemma_group_list(all, true);
        lemma_groups_fit(all);
        let zero = seq!['0'];
        assert(hex_number(zero) == 0) by {
            reveal_with_fuel(hex_number, 2);
            assert(zero.drop_last() =~= Seq::<char>::empty());
        }
        assert(values(all) =~= values(head) + parse::zeros(n) + values(tail));
    }
}

} // verus!
