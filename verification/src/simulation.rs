//! From a scan to the graph of its topology.

use crate::address::IpAddress;
use crate::error::ScanError;
use crate::graph::{
    add_link, add_node, empty_graph, graph_links, graph_nodes, has_link, HostGraph, NodeHandle,
    NodeView,
};
use crate::host::SimpleHost;
use crate::index::AddressIndex;
use crate::record::{HopRecord, HostRecord, HostRecordView, ScanRecord};
use crate::topology::{
    add_record, add_records, carries, connect, distinct_addresses, entries, follow, has_address,
    lemma_entries_prefix, linked, node_of, origin_topology, place, position,
    record_entries, scan_entries, slots, topology_of, Topology,
};
use vstd::multiset::Multiset;
use vstd::prelude::*;

verus! {

/// The graph and the index stand for the topology `t`: the graph carries it,
/// no address has two nodes, and the index knows each address with its node.
#[verifier::opaque]
spec fn consistent(graph: HostGraph, index: Map<IpAddress, NodeHandle>, t: Topology) -> bool {
    &&& carries(graph, t)
    &&& distinct_addresses(t.nodes)
    &&& forall|a: IpAddress| #[trigger]
        index.contains_key(a) ==> has_address(t.nodes, index[a] as int, a)
    &&& forall|i: int|
        0 <= i < t.nodes.len() ==> index.contains_key((#[trigger] t.nodes[i]).host.address)
}

/// A graph that carries the topology expected, or the error expected.
pub open spec fn built(result: Result<HostGraph, ScanError>, expected: Result<Topology, ScanError>) -> bool {
    match (result, expected) {
        (Ok(graph), Ok(t)) => carries(graph, t),
        (Err(e), Err(x)) => e == x,
        _ => false,
    }
}

/// With an index that knows each address with its node, looking an address
/// up in the index finds its position among the nodes.
proof fn lemma_position(index: Map<IpAddress, NodeHandle>, t: Topology, address: IpAddress)
    requires
        distinct_addresses(t.nodes),
        forall|a: IpAddress| #[trigger]
            index.contains_key(a) ==> has_address(t.nodes, index[a] as int, a),
        forall|i: int|
            0 <= i < t.nodes.len() ==> index.contains_key((#[trigger] t.nodes[i]).host.address),
    ensures
        position(t.nodes, address) == (if index.contains_key(address) {
            Some(index[address] as int)
        } else {
            None
        }),
{
    if index.contains_key(address) {
        let known = index[address] as int;
        assert(has_address(t.nodes, known, address));
        let chosen = choose|at: int| has_address(t.nodes, at, address);
        assert(has_address(t.nodes, chosen, address));
        if chosen < known {
            assert(t.nodes[chosen].host.address != t.nodes[known].host.address);
        } else if known < chosen {
            assert(t.nodes[known].host.address != t.nodes[chosen].host.address);
        }
    } else {
        if exists|at: int| has_address(t.nodes, at, address) {
            let at = choose|at: int| has_address(t.nodes, at, address);
            assert(index.contains_key(t.nodes[at].host.address));
        }
    }
}

/// Finds the node that stands for the address of `host`, or adds one.
fn place_host(
    index: &mut AddressIndex,
    graph: &mut HostGraph,
    host: SimpleHost,
    Ghost(t): Ghost<Topology>,
) -> (handle: NodeHandle)
    requires
        consistent(*old(graph), old(index)@, t),
        t.nodes.len() < u32::MAX,
    ensures
        consistent(*final(graph), final(index)@, place(t, host@).0),
        handle == place(t, host@).1,
        handle < place(t, host@).0.nodes.len(),
        place(t, host@).0.nodes.len() <= t.nodes.len() + 1,
        place(t, host@).0.nodes.len() >= t.nodes.len(),
        place(t, host@).0.links == t.links,
{
    proof {
        reveal(consistent);
        lemma_position(index@, t, host.main_addr);
    }
    match index.get(host.main_addr) {
        Some(handle) => handle,
        None => {
            let address = host.main_addr;
            let name = address.to_text();
            let ghost view = host@;
            let handle = add_node(graph, name.as_str(), host);
            index.insert(address, handle);
            proof {
                let next = place(t, view).0;
                assert(next.nodes == t.nodes.push(node_of(view)));
                assert(slots(next.nodes) =~= slots(t.nodes).push(Some(node_of(view))));
                assert forall|a: IpAddress| #[trigger]
                    index@.contains_key(a) implies has_address(
                    next.nodes,
                    index@[a] as int,
                    a,
                ) by {
                    if a != address {
                        assert(old(index)@.contains_key(a));
                        assert(has_address(t.nodes, old(index)@[a] as int, a));
                    }
                }
                assert forall|i: int| 0 <= i < next.nodes.len() implies index@.contains_key(
                    (#[trigger] next.nodes[i]).host.address,
                ) by {
                    if i < t.nodes.len() {
                        assert(old(index)@.contains_key(t.nodes[i].host.address));
                    }
                }
                assert forall|i: int, j: int| 0 <= i < j < next.nodes.len() implies (
                #[trigger] next.nodes[i]).host.address != (#[trigger] next.nodes[j]).host.address by {
                    if j == t.nodes.len() {
                        assert(old(index)@.contains_key(t.nodes[i].host.address));
                    } else {
                        assert(t.nodes[i].host.address != t.nodes[j].host.address);
                    }
                }
            }
            handle
        },
    }
}

/// Links `from` and `to`, unless they are linked.
fn link_once(
    graph: &mut HostGraph,
    from: NodeHandle,
    to: NodeHandle,
    Ghost(t): Ghost<Topology>,
)
    requires
        carries(*old(graph), t),
        from < t.nodes.len(),
        to < t.nodes.len(),
        t.links.len() < u32::MAX,
    ensures
        carries(*final(graph), connect(t, from as int, to as int)),
{
    proof {
        t.links.to_multiset_ensures();
        assert(forall|i: int| 0 <= i < slots(t.nodes).len() ==> (#[trigger] slots(
            t.nodes,
        )[i]) is Some);
    }
    if !has_link(graph, from, to) {
        add_link(graph, from, to);
    }
}

/// Follows the hops of one trace from the origin.
fn follow_trace(
    index: &mut AddressIndex,
    graph: &mut HostGraph,
    hops: &Vec<HopRecord>,
    Ghost(t): Ghost<Topology>,
) -> (result: Result<Ghost<Topology>, ScanError>)
    requires
        consistent(*old(graph), old(index)@, t),
        0 < t.nodes.len(),
        t.nodes.len() + hops.len() <= u32::MAX,
        t.links.len() + hops.len() <= u32::MAX,
    ensures
        match result {
            Ok(after) => follow(t, 0, hops.deep_view()) == Ok::<Topology, ScanError>(after@)
                && consistent(*final(graph), final(index)@, after@) && after@.nodes.len()
                <= t.nodes.len() + hops.len() && after@.links.len() <= t.links.len()
                + hops.len() && after@.nodes.len() >= t.nodes.len(),
            Err(e) => follow(t, 0, hops.deep_view()) == Err::<Topology, ScanError>(e),
        },
{
    let ghost all = hops.deep_view();
    let ghost mut now = t;
    let mut from: NodeHandle = 0;
    let mut at: usize = 0;
    proof {
        assert(all.skip(0) =~= all);
    }
    while at < hops.len()
        invariant
            all == hops.deep_view(),
            at <= hops.len(),
            consistent(*graph, index@, now),
            from < now.nodes.len(),
            t.nodes.len() <= now.nodes.len() <= t.nodes.len() + at,
            now.links.len() <= t.links.len() + at,
            t.nodes.len() + hops.len() <= u32::MAX,
            t.links.len() + hops.len() <= u32::MAX,
            follow(t, 0, all) == follow(now, from as int, all.skip(at as int)),
        decreases hops.len() - at,
    {
        let ghost rest = all.skip(at as int);
        proof {
            assert(rest[0] == hops[at as int].deep_view());
            assert(rest.drop_first() =~= all.skip(at + 1));
        }
        let host = match SimpleHost::from_hop(&hops[at]) {
            Err(e) => {
                return Err(e);
            },
            Ok(host) => host,
        };
        let ghost placed = place(now, host@).0;
        let to = place_host(index, graph, host, Ghost(now));
        proof {
            reveal(consistent);
        }
        link_once(graph, from, to, Ghost(placed));
        proof {
            now = connect(placed, from as int, to as int);
        }
        from = to;
        at += 1;
    }
    Ok(Ghost(now))
}

/// Adds one host record to the graph.
fn add_host_record(
    index: &mut AddressIndex,
    graph: &mut HostGraph,
    record: &HostRecord,
    Ghost(t): Ghost<Topology>,
) -> (result: Result<Ghost<Topology>, ScanError>)
    requires
        consistent(*old(graph), old(index)@, t),
        0 < t.nodes.len(),
        t.nodes.len() + record_entries(record.deep_view()) <= u32::MAX,
        t.links.len() + record_entries(record.deep_view()) <= u32::MAX,
    ensures
        match result {
            Ok(after) => add_record(t, record.deep_view()) == Ok::<Topology, ScanError>(after@)
                && consistent(*final(graph), final(index)@, after@) && 0 < after@.nodes.len()
                <= t.nodes.len() + record_entries(record.deep_view()) && after@.links.len()
                <= t.links.len() + record_entries(record.deep_view()),
            Err(e) => add_record(t, record.deep_view()) == Err::<Topology, ScanError>(e),
        },
{
    match SimpleHost::from_fullhost(record) {
        Err(e) => {
            if e.is_skipped() {
                Ok(Ghost(t))
            } else {
                Err(e)
            }
        },
        Ok(host) => {
            let ghost placed = place(t, host@).0;
            let _ = place_host(index, graph, host, Ghost(t));
            match &record.hops {
                None => Err(ScanError::MalformedTrace),
                Some(hops) => follow_trace(index, graph, hops, Ghost(placed)),
            }
        },
    }
}

/// Whether a graph has room for whatever `scan` may add to it.
pub fn within_capacity(scan: &ScanRecord) -> (fits: bool)
    ensures
        fits == (scan_entries(scan.deep_view()) <= u32::MAX),
{
    let records = match &scan.hosts {
        None => {
            return true;
        },
        Some(records) => records,
    };
    let ghost all = records.deep_view();
    let limit: u64 = 0xffff_ffff;
    let mut total: u64 = 1;
    let mut at: usize = 0;
    proof {
        assert(all.take(0) =~= Seq::<HostRecordView>::empty());
    }
    while at < records.len()
        invariant
            all == records.deep_view(),
            scan_entries(scan.deep_view()) == 1 + entries(all),
            at <= records.len(),
            limit == 0xffff_ffff,
            total == 1 + entries(all.take(at as int)),
            total <= limit,
        decreases records.len() - at,
    {
        proof {
            assert(all.take(at + 1).drop_last() =~= all.take(at as int));
            assert(all.take(at + 1).last() == records[at as int].deep_view());
            lemma_entries_prefix(all, at + 1);
        }
        let hops: usize = match &records[at].hops {
            Some(hops) => hops.len(),
            None => 0,
        };
        if hops >= 0xffff_ffff {
            return false;
        }
        total = total + 1 + hops as u64;
        if total > limit {
            return false;
        }
        at += 1;
    }
    proof {
        assert(all.take(at as int) =~= all);
    }
    true
}

/// Adds the host records to the graph, one after the other.
fn add_host_records(
    index: &mut AddressIndex,
    graph: &mut HostGraph,
    records: &Vec<HostRecord>,
    Ghost(t): Ghost<Topology>,
) -> (result: Result<Ghost<Topology>, ScanError>)
    requires
        consistent(*old(graph), old(index)@, t),
        t.nodes.len() == 1,
        t.links.len() == 0,
        1 + entries(records.deep_view()) <= u32::MAX,
    ensures
        match result {
            Ok(after) => add_records(t, records.deep_view()) == Ok::<Topology, ScanError>(after@)
                && consistent(*final(graph), final(index)@, after@),
            Err(e) => add_records(t, records.deep_view()) == Err::<Topology, ScanError>(e),
        },
{
    let ghost all = records.deep_view();
    let ghost mut now = t;
    let mut at: usize = 0;
    proof {
        assert(all.skip(0) =~= all);
        assert(all.take(0) =~= Seq::<HostRecordView>::empty());
    }
    while at < records.len()
        invariant
            all == records.deep_view(),
            at <= records.len(),
            consistent(*graph, index@, now),
            0 < now.nodes.len() <= 1 + entries(all.take(at as int)),
            now.links.len() <= entries(all.take(at as int)),
            1 + entries(all) <= u32::MAX,
            add_records(t, all) == add_records(now, all.skip(at as int)),
        decreases records.len() - at,
    {
        let ghost rest = all.skip(at as int);
        proof {
            assert(rest[0] == records[at as int].deep_view());
            assert(rest.drop_first() =~= all.skip(at + 1));
            assert(all.take(at + 1).drop_last() =~= all.take(at as int));
            assert(all.take(at + 1).last() == records[at as int].deep_view());
            lemma_entries_prefix(all, at + 1);
        }
        match add_host_record(index, graph, &records[at], Ghost(now)) {
            Err(e) => {
                return Err(e);
            },
            Ok(after) => {
                proof {
                    now = after@;
                }
            },
        }
        at += 1;
    }
    Ok(Ghost(now))
}

/// Builds the graph of a scan: the origin, `127.0.0.1`, and after it one
/// node for each address that the hosts and the hops of their traces bring,
/// with one link between each two nodes that follow each other in a trace.
pub fn build_simulation(scan: ScanRecord) -> (result: Result<HostGraph, ScanError>)
    requires
        scan_entries(scan.deep_view()) <= u32::MAX,
    ensures
        built(result, topology_of(scan.deep_view())),
{
    let mut index = AddressIndex::new();
    let mut graph = empty_graph();
    let localhost = match SimpleHost::from_strs("127.0.0.1", "localhost") {
        Err(e) => {
            return Err(e);
        },
        Ok(localhost) => localhost,
    };
    let ghost empty = Topology { nodes: Seq::empty(), links: Seq::empty() };
    let ghost start = origin_topology(localhost@);
    proof {
        lemma_empty_consistent(graph, index@);
        assert(position(empty.nodes, localhost.main_addr) is None);
        assert(place(empty, localhost@).0 == start);
    }
    let _ = place_host(&mut index, &mut graph, localhost, Ghost(empty));
    match &scan.hosts {
        None => Err(ScanError::MissingHostList),
        Some(records) => match add_host_records(&mut index, &mut graph, records, Ghost(start)) {
            Err(e) => Err(e),
            Ok(after) => {
                proof {
                    reveal(consistent);
                }
                Ok(graph)
            },
        },
    }
}

/// A graph and an index that hold nothing stand for the empty topology.
proof fn lemma_empty_consistent(graph: HostGraph, index: Map<IpAddress, NodeHandle>)
    requires
        graph_nodes(graph) == Seq::<Option<NodeView>>::empty(),
        graph_links(graph) == Multiset::<(int, int)>::empty(),
        index == Map::<IpAddress, NodeHandle>::empty(),
    ensures
        consistent(graph, index, Topology { nodes: Seq::empty(), links: Seq::empty() }),
{
    reveal(consistent);
    let empty = Topology { nodes: Seq::empty(), links: Seq::empty() };
    assert(slots(empty.nodes) =~= Seq::<Option<NodeView>>::empty());
    empty.links.to_multiset_ensures();
    assert(empty.links.to_multiset() =~= Multiset::<(int, int)>::empty());
}

} // verus!
