use fdg_sim::petgraph::graph::NodeIndex;
use neuromaster::address::IpAddress;
use neuromaster::error::ScanError;
use neuromaster::graph::HostGraph;
use neuromaster::os::OsGuess;
use neuromaster::record::{AddressRecord, HopRecord, HostRecord, ScanRecord};
use neuromaster::simulation::{build_simulation, within_capacity};

fn text(s: &str) -> Option<String> {
    Some(s.to_string())
}

fn hop(addr: &str) -> HopRecord {
    HopRecord { ipaddr: text(addr), host: None }
}

fn host(state: &str, addr: &str, hops: Vec<HopRecord>) -> HostRecord {
    HostRecord {
        state: text(state),
        addresses: Some(vec![AddressRecord { addr: text(addr), addrtype: text("ipv4") }]),
        hostnames: vec![],
        os_matches: vec![],
        hops: Some(hops),
    }
}

fn up(addr: &str, hops: &[&str]) -> HostRecord {
    host("up", addr, hops.iter().map(|h| hop(h)).collect())
}

fn build(hosts: Vec<HostRecord>) -> HostGraph {
    build_simulation(ScanRecord { hosts: Some(hosts) }).unwrap()
}

fn names(graph: &HostGraph) -> Vec<String> {
    graph.node_indices().map(|i| graph.node_weight(i).unwrap().name.clone()).collect()
}

fn links(graph: &HostGraph) -> Vec<(usize, usize)> {
    graph
        .edge_indices()
        .map(|e| graph.edge_endpoints(e).unwrap())
        .map(|(a, b)| (a.index(), b.index()))
        .collect()
}

#[test]
fn empty_scan_has_the_origin_alone() {
    let scan = ScanRecord { hosts: Some(vec![]) };
    assert!(within_capacity(&scan));
    let graph = build_simulation(scan).unwrap();
    assert_eq!(graph.node_count(), 1);
    assert_eq!(graph.edge_count(), 0);
    let origin = graph.node_weight(NodeIndex::new(0)).unwrap();
    assert_eq!(origin.name, "127.0.0.1");
    assert_eq!(origin.data.main_addr, IpAddress::V4(0x7f00_0001));
    assert_eq!(origin.data.main_hostname, Some(b"\x09localhost\x00".to_vec()));
    assert_eq!(origin.data.os_guess, None);
}

#[test]
fn missing_host_list_is_an_error() {
    let scan = ScanRecord { hosts: None };
    assert!(within_capacity(&scan));
    assert_eq!(build_simulation(scan).err(), Some(ScanError::MissingHostList));
}

#[test]
fn trace_becomes_a_path_from_the_origin() {
    let graph = build(vec![up("10.0.2.9", &["10.0.0.1", "10.0.1.1", "10.0.2.9"])]);
    assert_eq!(names(&graph), ["127.0.0.1", "10.0.2.9", "10.0.0.1", "10.0.1.1"]);
    assert_eq!(links(&graph), [(0, 2), (2, 3), (3, 1)]);
}

#[test]
fn shared_hop_gives_one_node_and_one_link() {
    let graph = build(vec![
        up("10.0.0.5", &["10.0.0.1", "10.0.0.5"]),
        up("10.0.0.6", &["10.0.0.1", "10.0.0.6"]),
    ]);
    assert_eq!(names(&graph), ["127.0.0.1", "10.0.0.5", "10.0.0.1", "10.0.0.6"]);
    assert_eq!(links(&graph), [(0, 2), (2, 1), (2, 3)]);
    let n = |i: usize| NodeIndex::new(i);
    assert_eq!(graph.edges_connecting(n(0), n(2)).count(), 1);
    assert!(!graph.contains_edge(n(1), n(3)));
}

#[test]
fn same_trace_twice_adds_nothing() {
    let once = build(vec![up("10.0.0.5", &["10.0.0.1", "10.0.0.5"])]);
    let twice = build(vec![
        up("10.0.0.5", &["10.0.0.1", "10.0.0.5"]),
        up("10.0.0.5", &["10.0.0.1", "10.0.0.5"]),
    ]);
    assert_eq!(names(&once), names(&twice));
    assert_eq!(links(&once), links(&twice));
    assert_eq!(twice.node_count(), 3);
    assert_eq!(twice.edge_count(), 2);
}

#[test]
fn step_taken_the_other_way_round_adds_no_link() {
    let graph = build(vec![
        up("10.0.0.2", &["10.0.0.1", "10.0.0.2"]),
        up("10.0.0.1", &["10.0.0.2", "10.0.0.1"]),
    ]);
    assert_eq!(names(&graph), ["127.0.0.1", "10.0.0.2", "10.0.0.1"]);
    assert_eq!(links(&graph), [(0, 2), (2, 1), (0, 1)]);
}

#[test]
fn host_seen_as_a_hop_before_keeps_its_node() {
    let mut second = up("10.0.0.1", &["10.0.0.1"]);
    second.os_matches = vec![text("Linux 5.4")];
    let graph = build(vec![up("10.0.0.5", &["10.0.0.1", "10.0.0.5"]), second]);
    assert_eq!(names(&graph), ["127.0.0.1", "10.0.0.5", "10.0.0.1"]);
    assert_eq!(links(&graph), [(0, 2), (2, 1)]);
    assert_eq!(graph.node_weight(NodeIndex::new(2)).unwrap().data.os_guess, None);
}

#[test]
fn addresses_are_told_apart_by_value_not_by_text() {
    let mut a = up("10.0.0.9", &[]);
    a.addresses = Some(vec![AddressRecord { addr: text("::1"), addrtype: text("ipv6") }]);
    a.hops = Some(vec![hop("0:0:0:0:0:0:0:1"), hop("::ffff:10.0.0.1"), hop("10.0.0.1")]);
    let graph = build(vec![a]);
    assert_eq!(names(&graph), ["127.0.0.1", "::1", "::ffff:10.0.0.1", "10.0.0.1"]);
    assert_eq!(links(&graph), [(0, 1), (1, 2), (2, 3)]);
}

#[test]
fn hop_that_is_the_origin_links_it_to_itself() {
    let graph = build(vec![up("10.0.0.5", &["127.0.0.1", "10.0.0.5"])]);
    assert_eq!(names(&graph), ["127.0.0.1", "10.0.0.5"]);
    assert_eq!(links(&graph), [(0, 0), (0, 1)]);
}

#[test]
fn host_keeps_what_its_record_says() {
    let mut r = up("10.0.0.5", &[]);
    r.hostnames = vec![text("box.example.org")];
    r.os_matches = vec![text("OpenBSD 6.8")];
    let graph = build(vec![r]);
    let node = graph.node_weight(NodeIndex::new(1)).unwrap();
    assert_eq!(node.name, "10.0.0.5");
    assert_eq!(node.data.main_addr, IpAddress::V4(0x0a00_0005));
    assert_eq!(node.data.main_hostname, Some(b"\x03box\x07example\x03org\x00".to_vec()));
    assert_eq!(node.data.os_guess, Some(OsGuess::OpenBSD("OpenBSD 6.8".to_string())));
    assert_eq!(graph.edge_count(), 0);
}

#[test]
fn down_host_is_left_out() {
    let with = build(vec![
        up("10.0.0.5", &["10.0.0.1", "10.0.0.5"]),
        host("down", "10.0.0.7", vec![hop("10.0.0.1"), hop("10.0.0.7")]),
        up("10.0.0.6", &["10.0.0.1", "10.0.0.6"]),
    ]);
    let without = build(vec![
        up("10.0.0.5", &["10.0.0.1", "10.0.0.5"]),
        up("10.0.0.6", &["10.0.0.1", "10.0.0.6"]),
    ]);
    assert_eq!(names(&with), names(&without));
    assert_eq!(links(&with), links(&without));
    assert!(!names(&with).contains(&"10.0.0.7".to_string()));
}

#[test]
fn host_without_address_is_left_out_and_the_rest_is_built() {
    let mut lacking = up("10.0.0.7", &["10.0.0.1"]);
    lacking.addresses = None;
    let mut empty = up("10.0.0.8", &["10.0.0.1"]);
    empty.addresses = Some(vec![]);
    let mut stateless = up("10.0.0.9", &["10.0.0.1"]);
    stateless.state = None;
    let graph = build(vec![lacking, empty, stateless, up("10.0.0.6", &["10.0.0.6"])]);
    assert_eq!(names(&graph), ["127.0.0.1", "10.0.0.6"]);
    assert_eq!(links(&graph), [(0, 1)]);
}

#[test]
fn host_with_unreadable_address_is_left_out() {
    let graph = build(vec![up("10.0.0", &["10.0.0.1"]), up("10.0.0.6", &[])]);
    assert_eq!(names(&graph), ["127.0.0.1", "10.0.0.6"]);
    assert_eq!(graph.edge_count(), 0);
}

#[test]
fn left_out_host_needs_no_trace() {
    let mut down = host("down", "10.0.0.7", vec![]);
    down.hops = None;
    let graph = build(vec![down]);
    assert_eq!(names(&graph), ["127.0.0.1"]);
}

#[test]
fn unsupported_address_family_ends_the_build() {
    let mut odd = up("00:11:22:33:44:55", &[]);
    odd.addresses =
        Some(vec![AddressRecord { addr: text("00:11:22:33:44:55"), addrtype: text("mac") }]);
    let scan = ScanRecord { hosts: Some(vec![up("10.0.0.5", &[]), odd, up("10.0.0.6", &[])]) };
    assert_eq!(build_simulation(scan).err(), Some(ScanError::UnsupportedAddressFamily));
}

#[test]
fn host_without_trace_ends_the_build() {
    let mut r = up("10.0.0.5", &[]);
    r.hops = None;
    let scan = ScanRecord { hosts: Some(vec![r, up("10.0.0.6", &[])]) };
    assert_eq!(build_simulation(scan).err(), Some(ScanError::MalformedTrace));
}

#[test]
fn invalid_hop_ends_the_build() {
    let mut r = up("10.0.0.5", &["10.0.0.1"]);
    r.hops.as_mut().unwrap().push(HopRecord { ipaddr: None, host: None });
    let scan = ScanRecord { hosts: Some(vec![r]) };
    assert_eq!(build_simulation(scan).err(), Some(ScanError::InvalidHop));
    let scan = ScanRecord { hosts: Some(vec![up("10.0.0.5", &["10.0.0.1", "no address"])]) };
    assert_eq!(build_simulation(scan).err(), Some(ScanError::InvalidHop));
}

#[test]
fn first_error_in_the_order_of_the_records_is_reported() {
    let mut traceless = up("10.0.0.5", &[]);
    traceless.hops = None;
    let scan = ScanRecord { hosts: Some(vec![up("10.0.0.4", &["bad"]), traceless]) };
    assert_eq!(build_simulation(scan).err(), Some(ScanError::InvalidHop));
}

#[test]
fn scans_of_ordinary_size_fit() {
    let hosts: Vec<HostRecord> = (0..200u32)
        .map(|i| {
            let addr = format!("10.1.{}.{}", i / 250, i % 250 + 1);
            host("up", &addr, vec![hop("10.1.255.1"), hop("10.1.255.2"), hop(&addr)])
        })
        .collect();
    let scan = ScanRecord { hosts: Some(hosts) };
    assert!(within_capacity(&scan));
    let graph = build_simulation(scan).unwrap();
    assert_eq!(graph.node_count(), 203);
    assert_eq!(graph.edge_count(), 202);
}
