use m0untain::parse::{parse_ip, parse_u8, split_once};
use m0untain::{IpAddr, Ipv4Addr, Ipv6Addr};

fn v4(a: u8, b: u8, c: u8, d: u8) -> Option<IpAddr> {
    Some(IpAddr::V4(Ipv4Addr::new(a, b, c, d)))
}

fn v6(bits: u128) -> Option<IpAddr> {
    Some(IpAddr::V6(Ipv6Addr { bits }))
}

fn written(bits: u128) -> String {
    IpAddr::V6(Ipv6Addr { bits }).to_string()
}

const NOT_ADDRESSES: [&str; 34] = [
    "256.1.1.1",
    "01.2.3.4",
    "1.2.3",
    "1.2.3.4.5",
    "1..2.3",
    "",
    " 1.2.3.4",
    "1.2.3.4 ",
    "1.2.3.a",
    "0000.0.0.0",
    "00.0.0.0",
    "+1.2.3.4",
    ":::",
    "::::",
    "1:2:3:4:5:6:7:8:9",
    "1:2:3:4:5:6:7",
    "1::2::3",
    ":1",
    "1:",
    "fe80::1%1",
    "12345::",
    "g::",
    "1.2.3.4::",
    "1:2:3:4:5:6:7:1.2.3.4",
    "1:2:3:4:5:6::1.2.3.4",
    "::1.2.3.256",
    "::1.2.3.4:5",
    "[::1]",
    "::1/128",
    "1.2.3.4:80",
    "\u{661}.2.3.4",
    "1.2.3.\u{ff14}",
    ":",
    "....",
];

#[test]
fn addresses_are_read() {
    assert_eq!(parse_ip("1.2.3.4"), v4(1, 2, 3, 4));
    assert_eq!(parse_ip("01.2.3.4"), None);
    assert_eq!(parse_ip("256.0.0.1"), None);
    assert_eq!(parse_ip("::"), v6(0));
    assert_eq!(parse_ip("::1"), v6(1));
    assert_eq!(parse_ip("1::"), v6(1 << 112));
    assert_eq!(parse_ip("fe80::AbCd"), v6((0xfe80 << 112) | 0xabcd));
    assert_eq!(parse_ip("::ffff:1.2.3.4"), v6(0xffff_0102_0304));
    assert_eq!(
        parse_ip("1:2:3:4:5:6:7:8"),
        v6(0x0001_0002_0003_0004_0005_0006_0007_0008)
    );
    assert_eq!(parse_ip("1:2:3:4:5:6:7:8:9"), None);
    assert_eq!(parse_ip("1::2::3"), None);
    assert_eq!(parse_ip("1.2.3.4::"), None);
    assert_eq!(parse_ip("12345::"), None);
    assert_eq!(parse_ip("not an address"), None);
}

#[test]
fn other_texts_are_no_addresses() {
    for t in NOT_ADDRESSES {
        assert_eq!(parse_ip(t), None, "{t}");
    }
}

#[test]
fn addresses_in_every_form_are_read() {
    assert_eq!(parse_ip("0.0.0.0"), v4(0, 0, 0, 0));
    assert_eq!(parse_ip("1.2.3.4"), v4(1, 2, 3, 4));
    assert_eq!(parse_ip("255.255.255.255"), v4(255, 255, 255, 255));
    assert_eq!(parse_ip("::"), v6(0x0000_0000_0000_0000_0000_0000_0000_0000));
    assert_eq!(parse_ip("::1"), v6(0x0000_0000_0000_0000_0000_0000_0000_0001));
    assert_eq!(parse_ip("1::"), v6(0x0001_0000_0000_0000_0000_0000_0000_0000));
    assert_eq!(parse_ip("1:2:3:4:5:6:7:8"), v6(0x0001_0002_0003_0004_0005_0006_0007_0008));
    assert_eq!(parse_ip("1:2:3:4:5:6:7::"), v6(0x0001_0002_0003_0004_0005_0006_0007_0000));
    assert_eq!(parse_ip("::2:3:4:5:6:7:8"), v6(0x0000_0002_0003_0004_0005_0006_0007_0008));
    assert_eq!(parse_ip("FE80::AbCd"), v6(0xfe80_0000_0000_0000_0000_0000_0000_abcd));
    assert_eq!(parse_ip("::ffff:1.2.3.4"), v6(0x0000_0000_0000_0000_0000_ffff_0102_0304));
    assert_eq!(parse_ip("::1.2.3.4"), v6(0x0000_0000_0000_0000_0000_0000_0102_0304));
    assert_eq!(parse_ip("1:2:3:4:5:6:1.2.3.4"), v6(0x0001_0002_0003_0004_0005_0006_0102_0304));
    assert_eq!(parse_ip("1:2:3:4:5::1.2.3.4"), v6(0x0001_0002_0003_0004_0005_0000_0102_0304));
    assert_eq!(parse_ip("0:0:0:0:0:0:0:0"), v6(0x0000_0000_0000_0000_0000_0000_0000_0000));
    assert_eq!(parse_ip("0000:0000:0000:0000:0000:0000:0000:0001"), v6(0x0000_0000_0000_0000_0000_0000_0000_0001));
    assert_eq!(parse_ip("2001:db8::1"), v6(0x2001_0db8_0000_0000_0000_0000_0000_0001));
    assert_eq!(parse_ip("2001:db8:0:0:1:0:0:1"), v6(0x2001_0db8_0000_0000_0001_0000_0000_0001));
    assert_eq!(parse_ip("2001:0:0:1:0:0:0:1"), v6(0x2001_0000_0000_0001_0000_0000_0000_0001));
    assert_eq!(parse_ip("::ffff:0:0"), v6(0x0000_0000_0000_0000_0000_ffff_0000_0000));
    assert_eq!(parse_ip("::fffe:1:2"), v6(0x0000_0000_0000_0000_0000_fffe_0001_0002));
    assert_eq!(parse_ip("1:0:0:2:0:0:0:3"), v6(0x0001_0000_0000_0002_0000_0000_0000_0003));
    assert_eq!(parse_ip("0:1::"), v6(0x0000_0001_0000_0000_0000_0000_0000_0000));
    assert_eq!(parse_ip("a:b:c:d:e:f:0:1"), v6(0x000a_000b_000c_000d_000e_000f_0000_0001));
    assert_eq!(parse_ip("::0:1"), v6(0x0000_0000_0000_0000_0000_0000_0000_0001));
    assert_eq!(parse_ip("1::0"), v6(0x0001_0000_0000_0000_0000_0000_0000_0000));
}

#[test]
fn addresses_are_written() {
    assert_eq!(IpAddr::V4(Ipv4Addr::new(0, 10, 200, 255)).to_string(), "0.10.200.255");
    assert_eq!(written(0x0000_0000_0000_0000_0000_0000_0000_0000), "::");
    assert_eq!(written(0x0000_0000_0000_0000_0000_0000_0000_0001), "::1");
    assert_eq!(written(0x0001_0000_0000_0000_0000_0000_0000_0000), "1::");
    assert_eq!(written(0x0000_0000_0000_0000_0000_ffff_0102_0304), "::ffff:1.2.3.4");
    assert_eq!(written(0x0000_0000_0000_0000_0000_0000_0102_0304), "::102:304");
    assert_eq!(written(0x2001_0db8_0000_0000_0001_0000_0000_0001), "2001:db8::1:0:0:1");
    assert_eq!(written(0x2001_0000_0000_0001_0000_0000_0000_0001), "2001:0:0:1::1");
    assert_eq!(written(0x2001_0db8_0001_0001_0001_0001_0001_0000), "2001:db8:1:1:1:1:1:0");
    assert_eq!(written(0x0001_0000_0002_0003_0004_0005_0006_0007), "1:0:2:3:4:5:6:7");
    assert_eq!(written(0x0001_0002_0003_0004_0005_0006_0000_0000), "1:2:3:4:5:6::");
    assert_eq!(written(0x0000_0000_0003_0004_0005_0006_0007_0008), "::3:4:5:6:7:8");
    assert_eq!(written(0x0000_0000_0000_0000_0000_fffe_0001_0002), "::fffe:1:2");
    assert_eq!(written(0x0000_0000_0000_0000_0000_ffff_0000_0000), "::ffff:0.0.0.0");
    assert_eq!(written(0xffff_ffff_ffff_ffff_ffff_ffff_ffff_ffff), "ffff:ffff:ffff:ffff:ffff:ffff:ffff:ffff");
    assert_eq!(written(0xabcd_0000_0000_0000_0000_0000_0000_0e00), "abcd::e00");
}

#[test]
fn many_written_addresses_read_back() {
    let mut x: u128 = 0x9e37_79b9_7f4a_7c15_f39c_c060_5ced_c834;
    for i in 0..4000u32 {
        x = x.wrapping_mul(0xda94_2042_e4dd_58b5).wrapping_add(i as u128);
        // Zero some groups, so that runs of zeros of every shape occur.
        let mut bits = 0u128;
        for g in 0..8 {
            if (x >> (g * 7 + 60)) & 3 != 0 {
                bits |= ((x >> (g * 11)) & 0xffff) << (g * 16);
            }
        }
        if i % 16 == 0 {
            bits = 0xffff_0000_0000 | (bits & 0xffff_ffff);
        }
        let long = IpAddr::V6(Ipv6Addr { bits });
        assert_eq!(parse_ip(&long.to_string()), Some(long));
        let short = IpAddr::V4(Ipv4Addr { bits: bits as u32 });
        assert_eq!(parse_ip(&short.to_string()), Some(short));
    }
}

#[test]
fn written_addresses_read_back() {
    for ip in [
        IpAddr::V4(Ipv4Addr::new(10, 0, 255, 7)),
        IpAddr::V6(Ipv6Addr { bits: 0 }),
        IpAddr::V6(Ipv6Addr { bits: u128::MAX }),
        IpAddr::V6(Ipv6Addr { bits: 0xffff_0102_0304 }),
        IpAddr::V6(Ipv6Addr { bits: 0x2001_0db8_0000_0000_0001_0000_0000_0001 }),
    ] {
        assert_eq!(parse_ip(&ip.to_string()), Some(ip));
    }
    let ip = IpAddr::V6(Ipv6Addr { bits: 0x2001_0db8_0000_0000_0001_0000_0000_0001 });
    assert_eq!(ip.to_string(), "2001:db8::1:0:0:1");
}

#[test]
fn small_numbers_are_read() {
    for t in ["0", "8", "24", "255", "256", "", "+", "+7", "-1", "-0", "007", "0000000000024", "1 ", "x", "99999999999999"] {
        assert_eq!(parse_u8(t), t.parse::<u8>().ok(), "{t}");
    }
}

#[test]
fn texts_are_split_at_the_first_separator() {
    for t in ["10.0.0.0/8", "a/b/c", "/x", "x/", "/", "", "none"] {
        let expected = t.split_once('/').map(|(a, b)| (a.to_string(), b.to_string()));
        assert_eq!(split_once(t, '/'), expected, "{t}");
    }
}
