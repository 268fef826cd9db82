//! The topology of a scan as a mathematical value: which nodes and links
//! the graph of a scan has, and why.

use crate::address::IpAddress;
use crate::error::ScanError;
use crate::graph::{graph_links, graph_nodes, HostGraph, NodeView};
use crate::host::{full_host, hop_host, literal_host, HostView};
use crate::record::{HopView, HostRecordView, ScanView};
use vstd::prelude::*;

verus! {

/// The nodes of a graph in the order of their indices, and its links in the
/// order in which they were added, each by the indices of its two nodes.
pub struct Topology {
    pub nodes: Seq<NodeView>,
    pub links: Seq<(int, int)>,
}

/// The node that stands for a host: it is named by the host's address.
pub open spec fn node_of(host: HostView) -> NodeView {
    NodeView { name: host.address.text(), host }
}

/// The node at index `at` stands for `address`.
pub open spec fn has_address(nodes: Seq<NodeView>, at: int, address: IpAddress) -> bool {
    0 <= at < nodes.len() && nodes[at].host.address == address
}

/// The index of a node that stands for `address`, where there is one.
pub open spec fn position(nodes: Seq<NodeView>, address: IpAddress) -> Option<int> {
    if exists|at: int| has_address(nodes, at, address) {
        Some(choose|at: int| has_address(nodes, at, address))
    } else {
        None
    }
}

/// A host finds its place: the node that stands for its address already,
/// or else a new node at the end. The second component is the node's index.
pub open spec fn place(t: Topology, host: HostView) -> (Topology, int) {
    match position(t.nodes, host.address) {
        Some(at) => (t, at),
        None => (Topology { nodes: t.nodes.push(node_of(host)), links: t.links }, t.nodes.len() as int),
    }
}

/// A link joins `a` and `b`, whichever way round it was added.
pub open spec fn linked(links: Seq<(int, int)>, a: int, b: int) -> bool {
    links.contains((a, b)) || links.contains((b, a))
}

/// `a` and `b` get a link, unless they have one.
pub open spec fn connect(t: Topology, a: int, b: int) -> Topology {
    if linked(t.links, a, b) {
        t
    } else {
        Topology { nodes: t.nodes, links: t.links.push((a, b)) }
    }
}

/// The hops of a trace are followed from the node `from`: each hop finds its
/// place, is linked to the node before it, and is the node before the next.
/// A hop that gives no host ends the build with that error.
pub open spec fn follow(t: Topology, from: int, hops: Seq<HopView>) -> Result<Topology, ScanError>
    decreases hops.len(),
{
    if hops.len() == 0 {
        Ok(t)
    } else {
        match hop_host(hops[0]) {
            Err(e) => Err(e),
            Ok(host) => {
                let (placed, at) = place(t, host);
                follow(connect(placed, from, at), at, hops.drop_first())
            },
        }
    }
}

/// One host record is added. A record that gives no host is left out, but
/// for an address of another family than IPv4 and IPv6, which ends the
/// build. A record that gives a host finds its place, and its trace is
/// followed from the origin, node 0; without a list of hops the build ends.
pub open spec fn add_record(t: Topology, record: HostRecordView) -> Result<Topology, ScanError> {
    match full_host(record) {
        Err(e) => if e.skips_host() {
            Ok(t)
        } else {
            Err(e)
        },
        Ok(host) => match record.hops {
            None => Err(ScanError::MalformedTrace),
            Some(hops) => follow(place(t, host).0, 0, hops),
        },
    }
}

/// The records are added one after the other, up to the first that ends the
/// build.
pub open spec fn add_records(t: Topology, records: Seq<HostRecordView>) -> Result<
    Topology,
    ScanError,
>
    decreases records.len(),
{
    if records.len() == 0 {
        Ok(t)
    } else {
        match add_record(t, records[0]) {
            Err(e) => Err(e),
            Ok(next) => add_records(next, records.drop_first()),
        }
    }
}

/// The topology before any record: the origin alone.
pub open spec fn origin_topology(origin: HostView) -> Topology {
    Topology { nodes: seq![node_of(origin)], links: Seq::empty() }
}

/// The host that stands for the scanning machine.
pub open spec fn origin_host() -> Result<HostView, ScanError> {
    literal_host("127.0.0.1"@, "localhost"@)
}

/// The topology of a scan, or the error that ends its build.
pub open spec fn topology_of(scan: ScanView) -> Result<Topology, ScanError> {
    match origin_host() {
        Err(e) => Err(e),
        Ok(origin) => match scan.hosts {
            None => Err(ScanError::MissingHostList),
            Some(records) => add_records(origin_topology(origin), records),
        },
    }
}

/// The node slots of a graph that holds these nodes and lost none.
pub open spec fn slots(nodes: Seq<NodeView>) -> Seq<Option<NodeView>> {
    Seq::new(nodes.len(), |i: int| Some(nodes[i]))
}

/// The graph holds the nodes and links of `t`, and nothing else.
pub open spec fn carries(graph: HostGraph, t: Topology) -> bool {
    graph_nodes(graph) == slots(t.nodes) && graph_links(graph) == t.links.to_multiset()
}

/// No two nodes stand for the same address.
pub open spec fn distinct_addresses(nodes: Seq<NodeView>) -> bool {
    forall|i: int, j: int|
        0 <= i < j < nodes.len() ==> (#[trigger] nodes[i]).host.address != (
        #[trigger] nodes[j]).host.address
}

/// What one record can add to a graph: its host and its hops.
pub open spec fn record_entries(record: HostRecordView) -> nat {
    match record.hops {
        Some(hops) => 1 + hops.len(),
        None => 1,
    }
}

/// What the records can add to a graph.
pub open spec fn entries(records: Seq<HostRecordView>) -> nat
    decreases records.len(),
{
    if records.len() == 0 {
        0
    } else {
        entries(records.drop_last()) + record_entries(records.last())
    }
}

/// The most nodes that the graph of a scan can have: the origin, and one for
/// each host and each hop.
pub open spec fn scan_entries(scan: ScanView) -> nat {
    match scan.hosts {
        Some(records) => 1 + entries(records),
        None => 1,
    }
}

/// The first of the records can add no more than all of them.
pub proof fn lemma_entries_prefix(records: Seq<HostRecordView>, k: int)
    requires
        0 <= k <= records.len(),
    ensures
        entries(records.take(k)) <= entries(records),
    decreases records.len(),
{
    if k == records.len() {
        assert(records.take(k) =~= records);
    } else {
        lemma_entries_prefix(records.drop_last(), k);
        assert(records.drop_last().take(k) =~= records.take(k));
    }
}

} // verus!
