use neuromaster::address::IpAddress;
use neuromaster::error::ScanError;
use neuromaster::host::SimpleHost;
use neuromaster::os::OsGuess;
use neuromaster::record::{AddressRecord, HopRecord, HostRecord};

fn text(s: &str) -> Option<String> {
    Some(s.to_string())
}

fn record(state: &str, kind: &str, addr: &str) -> HostRecord {
    HostRecord {
        state: text(state),
        addresses: Some(vec![AddressRecord { addr: text(addr), addrtype: text(kind) }]),
        hostnames: vec![],
        os_matches: vec![],
        hops: None,
    }
}

#[test]
fn full_record_gives_a_host() {
    let mut r = record("up", "ipv4", "192.168.0.7");
    r.hostnames = vec![text("printer.example.com"), text("other.example.com")];
    r.os_matches = vec![text("Linux 4.15"), text("FreeBSD 12.1")];
    let host = SimpleHost::from_fullhost(&r).unwrap();
    assert_eq!(host.main_addr, IpAddress::V4(0xc0a8_0007));
    assert_eq!(host.main_hostname, Some(b"\x07printer\x07example\x03com\x00".to_vec()));
    assert_eq!(host.os_guess, Some(OsGuess::Linux("Linux 4.15".to_string())));
    assert_eq!(host.rtt, None);
}

#[test]
fn full_record_without_names_gives_a_bare_host() {
    let host = SimpleHost::from_fullhost(&record("up", "ipv6", "fe80::1")).unwrap();
    assert_eq!(
        host,
        SimpleHost {
            main_addr: IpAddress::V6(0xfe80_0000_0000_0000_0000_0000_0000_0001),
            main_hostname: None,
            os_guess: None,
            rtt: None,
        }
    );
}

#[test]
fn first_entries_without_a_name_give_nothing() {
    let mut r = record("up", "ipv4", "10.0.0.1");
    r.hostnames = vec![None, text("late.example.com")];
    r.os_matches = vec![None, text("Linux")];
    let host = SimpleHost::from_fullhost(&r).unwrap();
    assert_eq!(host.main_hostname, None);
    assert_eq!(host.os_guess, None);
}

#[test]
fn down_host_is_invalid() {
    assert_eq!(
        SimpleHost::from_fullhost(&record("down", "ipv4", "10.0.0.1")),
        Err(ScanError::InvalidHost)
    );
}

#[test]
fn any_other_state_counts_as_up() {
    assert!(SimpleHost::from_fullhost(&record("unknown", "ipv4", "10.0.0.1")).is_ok());
    assert!(SimpleHost::from_fullhost(&record("Down", "ipv4", "10.0.0.1")).is_ok());
    assert!(SimpleHost::from_fullhost(&record("", "ipv4", "10.0.0.1")).is_ok());
}

#[test]
fn host_without_state_is_invalid() {
    let mut r = record("up", "ipv4", "10.0.0.1");
    r.state = None;
    assert_eq!(SimpleHost::from_fullhost(&r), Err(ScanError::InvalidHost));
}

#[test]
fn host_without_address_is_invalid() {
    let mut r = record("up", "ipv4", "10.0.0.1");
    r.addresses = None;
    assert_eq!(SimpleHost::from_fullhost(&r), Err(ScanError::InvalidHost));
    r.addresses = Some(vec![]);
    assert_eq!(SimpleHost::from_fullhost(&r), Err(ScanError::InvalidHost));
    r.addresses = Some(vec![AddressRecord { addr: None, addrtype: text("ipv4") }]);
    assert_eq!(SimpleHost::from_fullhost(&r), Err(ScanError::InvalidHost));
    r.addresses = Some(vec![AddressRecord { addr: text("10.0.0.1"), addrtype: None }]);
    assert_eq!(SimpleHost::from_fullhost(&r), Err(ScanError::InvalidHost));
    r.addresses = Some(vec![AddressRecord { addr: None, addrtype: text("mac") }]);
    assert_eq!(SimpleHost::from_fullhost(&r), Err(ScanError::InvalidHost));
}

#[test]
fn only_the_first_address_counts() {
    let mut r = record("up", "ipv4", "10.0.0.1");
    r.addresses.as_mut().unwrap().push(AddressRecord {
        addr: text("00:11:22:33:44:55"),
        addrtype: text("mac"),
    });
    assert_eq!(SimpleHost::from_fullhost(&r).unwrap().main_addr, IpAddress::V4(0x0a00_0001));
}

#[test]
fn other_address_family_is_unsupported() {
    assert_eq!(
        SimpleHost::from_fullhost(&record("up", "mac", "00:11:22:33:44:55")),
        Err(ScanError::UnsupportedAddressFamily)
    );
    assert_eq!(
        SimpleHost::from_fullhost(&record("up", "IPv4", "10.0.0.1")),
        Err(ScanError::UnsupportedAddressFamily)
    );
    assert_eq!(
        SimpleHost::from_fullhost(&record("up", "", "10.0.0.1")),
        Err(ScanError::UnsupportedAddressFamily)
    );
}

#[test]
fn address_of_the_other_family_is_invalid() {
    assert_eq!(
        SimpleHost::from_fullhost(&record("up", "ipv4", "::1")),
        Err(ScanError::InvalidAddress)
    );
    assert_eq!(
        SimpleHost::from_fullhost(&record("up", "ipv6", "10.0.0.1")),
        Err(ScanError::InvalidAddress)
    );
    assert_eq!(
        SimpleHost::from_fullhost(&record("up", "ipv4", "10.0.0")),
        Err(ScanError::InvalidAddress)
    );
}

#[test]
fn down_comes_before_the_address() {
    assert_eq!(
        SimpleHost::from_fullhost(&record("down", "mac", "nonsense")),
        Err(ScanError::InvalidHost)
    );
}

#[test]
fn malformed_name_makes_the_record_invalid() {
    let mut r = record("up", "ipv4", "10.0.0.1");
    r.hostnames = vec![text("double..dot")];
    assert_eq!(SimpleHost::from_fullhost(&r), Err(ScanError::InvalidHost));
    r.hostnames = vec![text("umlaut-ü.example")];
    assert_eq!(SimpleHost::from_fullhost(&r), Err(ScanError::InvalidHost));
}

#[test]
fn address_errors_come_before_the_name() {
    let mut r = record("up", "mac", "10.0.0.1");
    r.hostnames = vec![text("double..dot")];
    assert_eq!(SimpleHost::from_fullhost(&r), Err(ScanError::UnsupportedAddressFamily));
}

#[test]
fn full_record_with_the_name_given() {
    let r = record("up", "ipv4", "10.0.0.1");
    let named = SimpleHost::fullhost_with_hostname(&r, Some(Some(vec![1, b'a', 0]))).unwrap();
    assert_eq!(named.main_hostname, Some(vec![1, b'a', 0]));
    let unnamed = SimpleHost::fullhost_with_hostname(&r, None).unwrap();
    assert_eq!(unnamed.main_hostname, None);
    assert_eq!(SimpleHost::fullhost_with_hostname(&r, Some(None)), Err(ScanError::InvalidHost));
    let down = record("down", "ipv4", "10.0.0.1");
    assert_eq!(
        SimpleHost::fullhost_with_hostname(&down, Some(Some(vec![0]))),
        Err(ScanError::InvalidHost)
    );
}

#[test]
fn hop_gives_a_host_without_guess() {
    let hop = HopRecord { ipaddr: text("10.0.0.254"), host: text("gw.example.com") };
    assert_eq!(
        SimpleHost::from_hop(&hop),
        Ok(SimpleHost {
            main_addr: IpAddress::V4(0x0a00_00fe),
            main_hostname: Some(b"\x02gw\x07example\x03com\x00".to_vec()),
            os_guess: None,
            rtt: None,
        })
    );
    let bare = HopRecord { ipaddr: text("2001:db8::1"), host: None };
    assert_eq!(
        SimpleHost::from_hop(&bare),
        Ok(SimpleHost {
            main_addr: IpAddress::V6(0x2001_0db8_0000_0000_0000_0000_0000_0001),
            main_hostname: None,
            os_guess: None,
            rtt: None,
        })
    );
}

#[test]
fn hop_without_usable_address_is_invalid() {
    assert_eq!(
        SimpleHost::from_hop(&HopRecord { ipaddr: None, host: None }),
        Err(ScanError::InvalidHop)
    );
    assert_eq!(
        SimpleHost::from_hop(&HopRecord { ipaddr: text("10.0.0"), host: None }),
        Err(ScanError::InvalidHop)
    );
    assert_eq!(
        SimpleHost::from_hop(&HopRecord { ipaddr: text(""), host: text("gw") }),
        Err(ScanError::InvalidHop)
    );
}

#[test]
fn hop_with_malformed_name_is_invalid() {
    assert_eq!(
        SimpleHost::from_hop(&HopRecord { ipaddr: text("10.0.0.1"), host: text(".gw") }),
        Err(ScanError::InvalidHop)
    );
}

#[test]
fn hop_with_the_name_given() {
    let hop = HopRecord { ipaddr: text("10.0.0.1"), host: text("ignored") };
    assert_eq!(
        SimpleHost::hop_with_hostname(&hop, None).unwrap().main_hostname,
        None
    );
    assert_eq!(
        SimpleHost::hop_with_hostname(&hop, Some(Some(vec![0]))).unwrap().main_hostname,
        Some(vec![0])
    );
    assert_eq!(SimpleHost::hop_with_hostname(&hop, Some(None)), Err(ScanError::InvalidHop));
}

#[test]
fn address_and_name_give_a_host() {
    assert_eq!(
        SimpleHost::from_strs("127.0.0.1", "localhost"),
        Ok(SimpleHost {
            main_addr: IpAddress::V4(0x7f00_0001),
            main_hostname: Some(b"\x09localhost\x00".to_vec()),
            os_guess: None,
            rtt: None,
        })
    );
    assert_eq!(
        SimpleHost::from_strs("::1", "ip6-localhost.").unwrap().main_hostname,
        Some(b"\x0dip6-localhost\x00".to_vec())
    );
}

#[test]
fn address_that_does_not_read_is_invalid() {
    assert_eq!(SimpleHost::from_strs("localhost", "localhost"), Err(ScanError::InvalidAddress));
    assert_eq!(SimpleHost::from_strs("127.0.0.1", "local..host"), Err(ScanError::InvalidAddress));
    assert_eq!(SimpleHost::strs_with_hostname("127.0.0.1", None), Err(ScanError::InvalidAddress));
    assert_eq!(
        SimpleHost::strs_with_hostname("127.0.0.256", Some(vec![0])),
        Err(ScanError::InvalidAddress)
    );
    assert_eq!(
        SimpleHost::strs_with_hostname("127.0.0.1", Some(vec![0])).unwrap().main_hostname,
        Some(vec![0])
    );
}

#[test]
fn round_trip_time_is_recorded() {
    let mut host = SimpleHost::from_strs("10.0.0.1", "a").unwrap();
    assert_eq!(host.rtt, None);
    SimpleHost::set_rtt(&mut host, 1250);
    assert_eq!(host.rtt, Some(1250));
    assert_eq!(host.main_addr, IpAddress::V4(0x0a00_0001));
    assert_eq!(host.main_hostname, Some(b"\x01a\x00".to_vec()));
}

#[test]
fn skipped_errors_are_told_from_fatal_ones() {
    assert!(ScanError::InvalidHost.is_skipped());
    assert!(ScanError::InvalidAddress.is_skipped());
    assert!(!ScanError::UnsupportedAddressFamily.is_skipped());
}
