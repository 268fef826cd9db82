use neuromaster::address::IpAddress;

fn v4(text: &str) -> Option<u32> {
    match IpAddress::parse_v4(text) {
        Some(IpAddress::V4(v)) => Some(v),
        Some(IpAddress::V6(_)) => panic!("an IPv6 address from the IPv4 reader"),
        None => None,
    }
}

fn v6(text: &str) -> Option<u128> {
    match IpAddress::parse_v6(text) {
        Some(IpAddress::V6(v)) => Some(v),
        Some(IpAddress::V4(_)) => panic!("an IPv4 address from the IPv6 reader"),
        None => None,
    }
}

#[test]
fn dotted_addresses_are_read() {
    assert_eq!(v4("127.0.0.1"), Some(0x7f00_0001));
    assert_eq!(v4("0.0.0.0"), Some(0));
    assert_eq!(v4("255.255.255.255"), Some(0xffff_ffff));
    assert_eq!(v4("192.168.1.10"), Some(0xc0a8_010a));
    assert_eq!(v4("1.2.3.4"), Some(0x0102_0304));
}

#[test]
fn malformed_dotted_addresses_are_refused() {
    for text in [
        "", ".", "1", "1.2.3", "1.2.3.4.5", "1..3.4", ".1.2.3", "1.2.3.", "256.1.1.1", "1.2.3.256",
        "01.2.3.4", "1.2.3.04", "00.0.0.0", "1.2.3.4 ", " 1.2.3.4", "1.2.3.a", "1.2.3.-4",
        "1.2.3.+4", "1000.1.1.1", "0x1.2.3.4", "１.2.3.4", "::1", "1.2.3.4/8",
    ] {
        assert_eq!(v4(text), None, "{:?}", text);
    }
}

#[test]
fn single_zero_octets_are_read() {
    assert_eq!(v4("0.1.0.2"), Some(0x0001_0002));
    assert_eq!(v4("10.0.0.1"), Some(0x0a00_0001));
}

#[test]
fn full_ipv6_addresses_are_read() {
    assert_eq!(v6("1:2:3:4:5:6:7:8"), Some(0x0001_0002_0003_0004_0005_0006_0007_0008));
    assert_eq!(
        v6("2001:0db8:85a3:0000:0000:8a2e:0370:7334"),
        Some(0x2001_0db8_85a3_0000_0000_8a2e_0370_7334)
    );
    assert_eq!(
        v6("FFFF:ffff:FfFf:ffff:ffff:ffff:ffff:ffff"),
        Some(0xffff_ffff_ffff_ffff_ffff_ffff_ffff_ffff)
    );
    assert_eq!(v6("0:0:0:0:0:0:0:0"), Some(0));
}

#[test]
fn compressed_ipv6_addresses_are_read() {
    assert_eq!(v6("::"), Some(0));
    assert_eq!(v6("::1"), Some(1));
    assert_eq!(v6("1::"), Some(0x0001_0000_0000_0000_0000_0000_0000_0000));
    assert_eq!(v6("fe80::1"), Some(0xfe80_0000_0000_0000_0000_0000_0000_0001));
    assert_eq!(v6("1:2::7:8"), Some(0x0001_0002_0000_0000_0000_0000_0007_0008));
    assert_eq!(v6("1:2:3:4:5:6:7::"), Some(0x0001_0002_0003_0004_0005_0006_0007_0000));
    assert_eq!(v6("::2:3:4:5:6:7:8"), Some(0x0000_0002_0003_0004_0005_0006_0007_0008));
    assert_eq!(v6("1:2:3::5:6:7:8"), Some(0x0001_0002_0003_0000_0005_0006_0007_0008));
}

#[test]
fn ipv6_addresses_with_a_dotted_tail_are_read() {
    assert_eq!(v6("::ffff:1.2.3.4"), Some(0xffff_0102_0304));
    assert_eq!(v6("::1.2.3.4"), Some(0x0102_0304));
    assert_eq!(v6("1:2:3:4:5:6:1.2.3.4"), Some(0x0001_0002_0003_0004_0005_0006_0102_0304));
    assert_eq!(v6("64:ff9b::192.0.2.33"), Some(0x0064_ff9b_0000_0000_0000_0000_c000_0221));
    assert_eq!(v6("1:2:3:4:5::1.2.3.4"), Some(0x0001_0002_0003_0004_0005_0000_0102_0304));
}

#[test]
fn malformed_ipv6_addresses_are_refused() {
    for text in [
        "", ":", ":::", "1", "1:2", "1:2:3:4:5:6:7", "1:2:3:4:5:6:7:8:9", "1:2:3:4:5:6:7:8::",
        "::1:2:3:4:5:6:7:8", "1::2::3", "12345::", "::12345", "::g", "1:2:3:4:5:6:7:", ":1:2:3:4:5:6:7:8",
        "1.2.3.4::", "1.2.3.4::1", "::1.2.3", "::1.2.3.4.5", "::1.2.3.4:5", "1:2:3:4:5:6:7:1.2.3.4",
        "1:2:3:4:5:6::1.2.3.4", "::01.2.3.4", "::256.1.1.1", "fe80::1%eth0", "[::1]", "1::2:", ":1::2",
        "1.2.3.4", " ::1", "::1 ", "1:2:3:4:5:6:7:8 ", "::ffff:1.2.3.4.", "::-1",
    ] {
        assert_eq!(v6(text), None, "{:?}", text);
    }
}

#[test]
fn either_family_is_read() {
    assert_eq!(IpAddress::parse("10.1.2.3"), Some(IpAddress::V4(0x0a01_0203)));
    assert_eq!(IpAddress::parse("::1"), Some(IpAddress::V6(1)));
    assert_eq!(IpAddress::parse("localhost"), None);
    assert_eq!(IpAddress::parse(""), None);
    assert_ne!(IpAddress::parse("1.2.3.4"), IpAddress::parse("::ffff:1.2.3.4"));
    assert_eq!(IpAddress::parse("::1"), IpAddress::parse("0:0:0:0:0:0:0:1"));
}

#[test]
fn ipv4_addresses_are_written_dotted() {
    assert_eq!(IpAddress::V4(0x7f00_0001).to_text(), "127.0.0.1");
    assert_eq!(IpAddress::V4(0).to_text(), "0.0.0.0");
    assert_eq!(IpAddress::V4(0xffff_ffff).to_text(), "255.255.255.255");
    assert_eq!(IpAddress::V4(0x0a63_6409).to_text(), "10.99.100.9");
}

#[test]
fn ipv6_addresses_are_written_compressed() {
    assert_eq!(IpAddress::V6(0).to_text(), "::");
    assert_eq!(IpAddress::V6(1).to_text(), "::1");
    assert_eq!(IpAddress::V6(0xfe80_0000_0000_0000_0000_0000_0000_0001).to_text(), "fe80::1");
    assert_eq!(IpAddress::V6(0x0001_0000_0000_0000_0000_0000_0000_0000).to_text(), "1::");
    assert_eq!(
        IpAddress::V6(0x0001_0002_0003_0004_0005_0006_0007_0008).to_text(),
        "1:2:3:4:5:6:7:8"
    );
    assert_eq!(
        IpAddress::V6(0x2001_0db8_0000_0000_0001_0000_0000_0001).to_text(),
        "2001:db8::1:0:0:1"
    );
    assert_eq!(
        IpAddress::V6(0x0001_0000_0000_0002_0000_0000_0000_0003).to_text(),
        "1:0:0:2::3"
    );
    assert_eq!(
        IpAddress::V6(0x0001_0000_0002_0003_0004_0005_0006_0007).to_text(),
        "1:0:2:3:4:5:6:7"
    );
    assert_eq!(
        IpAddress::V6(0x0000_0000_0001_0000_0000_0001_0000_0000).to_text(),
        "::1:0:0:1:0:0"
    );
    assert_eq!(
        IpAddress::V6(0xabcd_ef01_2345_6789_0abc_00de_000f_ffff).to_text(),
        "abcd:ef01:2345:6789:abc:de:f:ffff"
    );
}

#[test]
fn mapped_ipv4_addresses_are_written_dotted() {
    assert_eq!(IpAddress::V6(0xffff_0102_0304).to_text(), "::ffff:1.2.3.4");
    assert_eq!(IpAddress::V6(0xffff_0000_0000).to_text(), "::ffff:0.0.0.0");
    assert_eq!(IpAddress::V6(0x0102_0304).to_text(), "::102:304");
    assert_eq!(IpAddress::V6(0x0001_0000_ffff_0102_0304).to_text(), "::1:0:ffff:102:304");
}

#[test]
fn written_addresses_read_back() {
    for v in [0u32, 1, 0x7f00_0001, 0xc0a8_0101, 0xffff_ffff, 0x0100_0000, 0x0001_0000] {
        let a = IpAddress::V4(v);
        assert_eq!(IpAddress::parse(&a.to_text()), Some(a));
    }
    for v in [
        0u128,
        1,
        0xffff_0102_0304,
        0xfe80_0000_0000_0000_0000_0000_0000_0001,
        0x0001_0000_0000_0002_0000_0000_0000_0003,
        0xffff_ffff_ffff_ffff_ffff_ffff_ffff_ffff,
        0x0001_0002_0003_0004_0005_0006_0007_0000,
        0x0000_0002_0003_0004_0005_0006_0007_0008,
    ] {
        let a = IpAddress::V6(v);
        assert_eq!(IpAddress::parse(&a.to_text()), Some(a));
    }
}
