//! What holds of the topology of every scan.

use crate::address::IpAddress;
use crate::error::ScanError;
use crate::graph::{all_present, graph_links, graph_nodes, HostGraph, NodeView};
use crate::host::{full_host, full_host_address, hop_host, HostView};
use crate::record::{AddressView, HopView, HostRecordView, ScanView};
use crate::topology::{
    add_record, add_records, carries, connect, distinct_addresses, follow, has_address, linked,
    node_of, origin_host, origin_topology, place, position, slots, topology_of, Topology,
};
use vstd::prelude::*;

verus! {

/// The link joins `a` and `b`, whichever way round.
pub open spec fn joins(link: (int, int), a: int, b: int) -> bool {
    link == (a, b) || link == (b, a)
}

/// Exactly one of the links joins `a` and `b`.
pub open spec fn one_link(links: Seq<(int, int)>, a: int, b: int) -> bool {
    exists|i: int|
        0 <= i < links.len() && joins(#[trigger] links[i], a, b) && forall|m: int|
            0 <= m < links.len() && joins(#[trigger] links[m], a, b) ==> m == i
}

/// No two links join the same two nodes.
pub open spec fn simple_links(links: Seq<(int, int)>) -> bool {
    forall|i: int, j: int|
        0 <= i < j < links.len() ==> !joins(#[trigger] links[i], (#[trigger] links[j]).0, links[j].1)
}

/// Every link joins nodes of the topology.
pub open spec fn links_in_range(t: Topology) -> bool {
    forall|i: int|
        0 <= i < t.links.len() ==> 0 <= (#[trigger] t.links[i]).0 < t.nodes.len() && 0
            <= t.links[i].1 < t.nodes.len()
}

/// The topology has its origin, one node for an address at most, one link
/// between two nodes at most, and no link that leads out of it.
pub open spec fn sound(t: Topology) -> bool {
    &&& t.nodes.len() > 0
    &&& distinct_addresses(t.nodes)
    &&& simple_links(t.links)
    &&& links_in_range(t)
}

/// `later` has the nodes and links of `earlier` where they were, and
/// possibly more after them.
pub open spec fn extends(earlier: Topology, later: Topology) -> bool {
    &&& earlier.nodes.len() <= later.nodes.len()
    &&& earlier.links.len() <= later.links.len()
    &&& forall|i: int| 0 <= i < earlier.nodes.len() ==> #[trigger] later.nodes[i] == earlier.nodes[i]
    &&& forall|i: int| 0 <= i < earlier.links.len() ==> #[trigger] later.links[i] == earlier.links[i]
}

/// Some node stands for `address`.
pub open spec fn present(nodes: Seq<NodeView>, address: IpAddress) -> bool {
    exists|at: int| has_address(nodes, at, address)
}

/// The address of hop `j`, where the hop gives a host.
pub open spec fn hop_address(hops: Seq<HopView>, j: int) -> IpAddress {
    match hop_host(hops[j]) {
        Ok(host) => host.address,
        Err(_) => arbitrary(),
    }
}

/// Hop `j` gives a host with this address.
pub open spec fn hop_brings(hops: Seq<HopView>, j: int, address: IpAddress) -> bool {
    0 <= j < hops.len() && hop_host(hops[j]) is Ok && hop_address(hops, j) == address
}

/// One of the hops gives a host with this address.
pub open spec fn hops_bring(hops: Seq<HopView>, address: IpAddress) -> bool {
    exists|j: int| hop_brings(hops, j, address)
}

/// The record gives a host, and the host or one of the hops of its trace has
/// this address.
pub open spec fn record_brings(record: HostRecordView, address: IpAddress) -> bool {
    match (full_host(record), record.hops) {
        (Ok(host), Some(hops)) => host.address == address || hops_bring(hops, address),
        (Ok(host), None) => host.address == address,
        _ => false,
    }
}

/// Record `k` brings this address.
pub open spec fn brought_at(records: Seq<HostRecordView>, k: int, address: IpAddress) -> bool {
    0 <= k < records.len() && record_brings(records[k], address)
}

/// One of the records brings this address.
pub open spec fn records_bring(records: Seq<HostRecordView>, address: IpAddress) -> bool {
    exists|k: int| brought_at(records, k, address)
}

/// The address is met in the scan: it is that of the origin, of a host that a
/// record gives, or of a hop in the trace of such a host.
pub open spec fn encountered(scan: ScanView, address: IpAddress) -> bool {
    match (origin_host(), scan.hosts) {
        (Ok(origin), Some(records)) => origin.address == address || records_bring(
            records,
            address,
        ),
        _ => false,
    }
}

/// The address that step `j` of a trace leaves from: `start` for the first
/// hop, and the address of the hop before for every other.
pub open spec fn step_start(start: IpAddress, hops: Seq<HopView>, j: int) -> IpAddress {
    if j == 0 {
        start
    } else {
        hop_address(hops, j - 1)
    }
}

/// The nodes that stand for `a` and `b` are joined by exactly one link.
pub open spec fn joined_once(t: Topology, a: IpAddress, b: IpAddress) -> bool {
    exists|x: int, y: int|
        #![trigger has_address(t.nodes, x, a), has_address(t.nodes, y, b)]
        has_address(t.nodes, x, a) && has_address(t.nodes, y, b) && one_link(t.links, x, y)
}

/// Step `j` of a trace that leaves from `start` is in the topology: the
/// hop gives a host, and the nodes on either side of the step are joined by
/// exactly one link.
pub open spec fn step_taken(t: Topology, start: IpAddress, hops: Seq<HopView>, j: int) -> bool {
    hop_host(hops[j]) is Ok && joined_once(t, step_start(start, hops, j), hop_address(hops, j))
}

/// Every step of the trace is in the topology.
pub open spec fn trace_taken(t: Topology, start: IpAddress, hops: Seq<HopView>) -> bool {
    forall|j: int| 0 <= j < hops.len() ==> #[trigger] step_taken(t, start, hops, j)
}

/// Where record `k` gives a host, it has a trace and every step of it is in
/// the topology.
pub open spec fn record_taken(t: Topology, start: IpAddress, record: HostRecordView) -> bool {
    full_host(record) is Ok ==> match record.hops {
        Some(hops) => trace_taken(t, start, hops),
        None => false,
    }
}

/// The record is left out of the graph for what it lacks: it is down, or
/// has no state, no address, or an address without type or text.
pub open spec fn lacking(record: HostRecordView) -> bool {
    ||| record.state is None
    ||| record.state == Some("down"@)
    ||| record.addresses is None
    ||| record.addresses == Some(Seq::<AddressView>::empty())
    ||| (match record.addresses {
        Some(list) => list.len() > 0 && (list[0].addr is None || list[0].addrtype is None),
        None => false,
    })
}

/// Among links of which no two join the same nodes, two nodes that are
/// linked are joined by exactly one.
proof fn lemma_one_link(links: Seq<(int, int)>, a: int, b: int)
    requires
        simple_links(links),
        linked(links, a, b),
    ensures
        one_link(links, a, b),
{
    let i = if links.contains((a, b)) {
        choose|i: int| 0 <= i < links.len() && links[i] == (a, b)
    } else {
        choose|i: int| 0 <= i < links.len() && links[i] == (b, a)
    };
    assert(joins(links[i], a, b));
    assert forall|m: int| 0 <= m < links.len() && joins(#[trigger] links[m], a, b) implies m
        == i by {
        if m < i {
            assert(!joins(links[m], links[i].0, links[i].1));
        } else if i < m {
            assert(!joins(links[i], links[m].0, links[m].1));
        }
    }
}

/// Two addresses whose nodes are joined by exactly one link stay so when
/// the topology grows and stays sound.
proof fn lemma_kept(earlier: Topology, later: Topology, a: IpAddress, b: IpAddress)
    requires
        extends(earlier, later),
        sound(later),
        joined_once(earlier, a, b),
    ensures
        joined_once(later, a, b),
{
    let (x, y) = choose|x: int, y: int|
        #![trigger has_address(earlier.nodes, x, a), has_address(earlier.nodes, y, b)]
        has_address(earlier.nodes, x, a) && has_address(earlier.nodes, y, b) && one_link(
            earlier.links,
            x,
            y,
        );
    let i = choose|i: int|
        0 <= i < earlier.links.len() && joins(#[trigger] earlier.links[i], x, y) && forall|m: int|
            0 <= m < earlier.links.len() && joins(#[trigger] earlier.links[m], x, y) ==> m == i;
    assert(later.links[i] == earlier.links[i]);
    assert(later.nodes[x] == earlier.nodes[x]);
    assert(later.nodes[y] == earlier.nodes[y]);
    assert(later.links.contains(later.links[i]));
    assert(linked(later.links, x, y));
    lemma_one_link(later.links, x, y);
    assert(has_address(later.nodes, x, a) && has_address(later.nodes, y, b));
}

/// What finding a place for a host does to a sound topology.
proof fn lemma_place(t: Topology, host: HostView)
    requires
        sound(t),
    ensures
        sound(place(t, host).0),
        extends(t, place(t, host).0),
        has_address(place(t, host).0.nodes, place(t, host).1, host.address),
        place(t, host).0.links == t.links,
        forall|a: IpAddress|
            #[trigger] present(place(t, host).0.nodes, a) <==> present(t.nodes, a) || a
                == host.address,
{
    let (p, at) = place(t, host);
    match position(t.nodes, host.address) {
        Some(found) => {
            assert(has_address(t.nodes, found, host.address));
            assert forall|a: IpAddress| #[trigger]
                present(p.nodes, a) <==> present(t.nodes, a) || a == host.address by {
                if a == host.address {
                    assert(present(t.nodes, a));
                }
            }
        },
        None => {
            assert forall|i: int, j: int| 0 <= i < j < p.nodes.len() implies (
            #[trigger] p.nodes[i]).host.address != (#[trigger] p.nodes[j]).host.address by {
                if j == t.nodes.len() {
                    if p.nodes[i].host.address == host.address {
                        assert(has_address(t.nodes, i, host.address));
                    }
                } else {
                    assert(t.nodes[i].host.address != t.nodes[j].host.address);
                }
            }
            assert forall|i: int| 0 <= i < p.links.len() implies 0 <= (#[trigger] p.links[i]).0
                < p.nodes.len() && 0 <= p.links[i].1 < p.nodes.len() by {
                assert(0 <= t.links[i].0 < t.nodes.len());
            }
            assert(has_address(p.nodes, at, host.address));
            assert forall|a: IpAddress| #[trigger]
                present(p.nodes, a) <==> present(t.nodes, a) || a == host.address by {
                if present(p.nodes, a) {
                    let w = choose|w: int| has_address(p.nodes, w, a);
                    if w < t.nodes.len() {
                        assert(has_address(t.nodes, w, a));
                    }
                }
                if present(t.nodes, a) {
                    let w = choose|w: int| has_address(t.nodes, w, a);
                    assert(has_address(p.nodes, w, a));
                }
                if a == host.address {
                    assert(has_address(p.nodes, at, a));
                }
            }
        },
    }
}

/// What linking two nodes does to a sound topology.
proof fn lemma_connect(t: Topology, a: int, b: int)
    requires
        sound(t),
        0 <= a < t.nodes.len(),
        0 <= b < t.nodes.len(),
    ensures
        sound(connect(t, a, b)),
        extends(t, connect(t, a, b)),
        connect(t, a, b).nodes == t.nodes,
        linked(connect(t, a, b).links, a, b),
{
    let c = connect(t, a, b);
    if !linked(t.links, a, b) {
        let n = t.links.len() as int;
        assert(c.links[n] == (a, b));
        assert(c.links.contains((a, b)));
        assert forall|i: int, j: int| 0 <= i < j < c.links.len() implies !joins(
            #[trigger] c.links[i],
            (#[trigger] c.links[j]).0,
            c.links[j].1,
        ) by {
            if j == n {
                if c.links[i] == (a, b) {
                    assert(t.links.contains((a, b)));
                }
                if c.links[i] == (b, a) {
                    assert(t.links.contains((b, a)));
                }
            } else {
                assert(!joins(t.links[i], t.links[j].0, t.links[j].1));
            }
        }
        assert forall|i: int| 0 <= i < c.links.len() implies 0 <= (#[trigger] c.links[i]).0
            < c.nodes.len() && 0 <= c.links[i].1 < c.nodes.len() by {
            if i < n {
                assert(0 <= t.links[i].0 < t.nodes.len());
            }
        }
    }
}

/// The hops bring what the first of them brings and what the others bring.
proof fn lemma_hops_shift(hops: Seq<HopView>, a: IpAddress)
    requires
        hops.len() > 0,
    ensures
        hops_bring(hops, a) <==> hop_brings(hops, 0, a) || hops_bring(hops.drop_first(), a),
{
    let rest = hops.drop_first();
    if hops_bring(rest, a) {
        let j = choose|j: int| hop_brings(rest, j, a);
        assert(rest[j] == hops[j + 1]);
        assert(hop_brings(hops, j + 1, a));
    }
    if hops_bring(hops, a) {
        let j = choose|j: int| hop_brings(hops, j, a);
        if j > 0 {
            assert(rest[j - 1] == hops[j]);
            assert(hop_brings(rest, j - 1, a));
        }
    }
}

/// The records bring what the first of them brings and what the others
/// bring.
proof fn lemma_records_shift(records: Seq<HostRecordView>, a: IpAddress)
    requires
        records.len() > 0,
    ensures
        records_bring(records, a) <==> record_brings(records[0], a) || records_bring(
            records.drop_first(),
            a,
        ),
{
    let rest = records.drop_first();
    if records_bring(rest, a) {
        let k = choose|k: int| brought_at(rest, k, a);
        assert(rest[k] == records[k + 1]);
        assert(brought_at(records, k + 1, a));
    }
    if record_brings(records[0], a) {
        assert(brought_at(records, 0, a));
    }
    if records_bring(records, a) {
        let k = choose|k: int| brought_at(records, k, a);
        if k > 0 {
            assert(rest[k - 1] == records[k]);
            assert(brought_at(rest, k - 1, a));
        }
    }
}

/// Following a trace keeps a sound topology sound and adds to it.
proof fn lemma_follow_sound(t: Topology, from: int, hops: Seq<HopView>, r: Topology)
    requires
        sound(t),
        0 <= from < t.nodes.len(),
        follow(t, from, hops) == Ok::<Topology, ScanError>(r),
    ensures
        sound(r),
        extends(t, r),
    decreases hops.len(),
{
    if hops.len() > 0 {
        let host = hop_host(hops[0])->Ok_0;
        let (p, at) = place(t, host);
        lemma_place(t, host);
        let c = connect(p, from, at);
        lemma_connect(p, from, at);
        lemma_follow_sound(c, at, hops.drop_first(), r);
        lemma_extends_twice(t, p, c);
        lemma_extends_twice(t, c, r);
    }
}

/// What was added to a topology that was added to, was added to the first.
proof fn lemma_extends_twice(a: Topology, b: Topology, c: Topology)
    requires
        extends(a, b),
        extends(b, c),
    ensures
        extends(a, c),
{
    assert forall|i: int| 0 <= i < a.nodes.len() implies #[trigger] c.nodes[i] == a.nodes[i] by {
        assert(b.nodes[i] == a.nodes[i]);
    }
    assert forall|i: int| 0 <= i < a.links.len() implies #[trigger] c.links[i] == a.links[i] by {
        assert(b.links[i] == a.links[i]);
    }
}

/// After a trace is followed the nodes stand for the addresses they stood
/// for and for those of the hops.
proof fn lemma_follow_nodes(t: Topology, from: int, hops: Seq<HopView>, r: Topology, a: IpAddress)
    requires
        sound(t),
        0 <= from < t.nodes.len(),
        follow(t, from, hops) == Ok::<Topology, ScanError>(r),
    ensures
        present(r.nodes, a) <==> present(t.nodes, a) || hops_bring(hops, a),
    decreases hops.len(),
{
    if hops.len() == 0 {
        if hops_bring(hops, a) {
            let j = choose|j: int| hop_brings(hops, j, a);
            assert(false);
        }
    } else {
        let host = hop_host(hops[0])->Ok_0;
        let (p, at) = place(t, host);
        lemma_place(t, host);
        let c = connect(p, from, at);
        lemma_connect(p, from, at);
        lemma_follow_nodes(c, at, hops.drop_first(), r, a);
        lemma_hops_shift(hops, a);
        assert(present(p.nodes, a) <==> present(t.nodes, a) || a == host.address);
        assert(hop_brings(hops, 0, a) <==> a == host.address);
    }
}

/// After a trace is followed each of its steps is in the topology.
proof fn lemma_follow_links(t: Topology, from: int, hops: Seq<HopView>, r: Topology, j: int)
    requires
        sound(t),
        0 <= from < t.nodes.len(),
        follow(t, from, hops) == Ok::<Topology, ScanError>(r),
        0 <= j < hops.len(),
    ensures
        step_taken(r, t.nodes[from].host.address, hops, j),
    decreases hops.len(),
{
    let start = t.nodes[from].host.address;
    let host = hop_host(hops[0])->Ok_0;
    let (p, at) = place(t, host);
    lemma_place(t, host);
    let c = connect(p, from, at);
    lemma_connect(p, from, at);
    let rest = hops.drop_first();
    lemma_follow_sound(c, at, rest, r);
    assert(c.nodes[at].host.address == host.address);
    assert(hop_address(hops, 0) == host.address);
    if j == 0 {
        assert(p.nodes[from] == t.nodes[from]);
        assert(has_address(c.nodes, from, start));
        assert(has_address(c.nodes, at, host.address));
        lemma_one_link(c.links, from, at);
        assert(joined_once(c, start, host.address));
        lemma_kept(c, r, start, host.address);
    } else {
        lemma_follow_links(c, at, rest, r, j - 1);
        assert(step_taken(r, host.address, rest, j - 1));
        assert(rest[j - 1] == hops[j]);
        if j > 1 {
            assert(rest[j - 2] == hops[j - 1]);
        }
        assert(step_start(host.address, rest, j - 1) == step_start(start, hops, j));
        assert(hop_address(rest, j - 1) == hop_address(hops, j));
    }
}

/// Adding a record keeps a sound topology sound and adds to it.
proof fn lemma_add_record_sound(t: Topology, record: HostRecordView, r: Topology)
    requires
        sound(t),
        add_record(t, record) == Ok::<Topology, ScanError>(r),
    ensures
        sound(r),
        extends(t, r),
{
    match full_host(record) {
        Err(e) => {
            assert(r == t);
        },
        Ok(host) => {
            let hops = record.hops->0;
            let p = place(t, host).0;
            lemma_place(t, host);
            lemma_follow_sound(p, 0, hops, r);
            lemma_extends_twice(t, p, r);
        },
    }
}

/// After a record is added the nodes stand for the addresses they stood for
/// and for those that the record brings.
proof fn lemma_add_record_nodes(t: Topology, record: HostRecordView, r: Topology, a: IpAddress)
    requires
        sound(t),
        add_record(t, record) == Ok::<Topology, ScanError>(r),
    ensures
        present(r.nodes, a) <==> present(t.nodes, a) || record_brings(record, a),
{
    match full_host(record) {
        Err(e) => {
            assert(r == t);
        },
        Ok(host) => {
            let hops = record.hops->0;
            let p = place(t, host).0;
            lemma_place(t, host);
            lemma_follow_nodes(p, 0, hops, r, a);
            assert(present(p.nodes, a) <==> present(t.nodes, a) || a == host.address);
        },
    }
}

/// After a record that gives a host is added, the steps of its trace are in
/// the topology.
proof fn lemma_add_record_links(t: Topology, record: HostRecordView, r: Topology)
    requires
        sound(t),
        add_record(t, record) == Ok::<Topology, ScanError>(r),
    ensures
        record_taken(r, t.nodes[0].host.address, record),
{
    match full_host(record) {
        Err(e) => {},
        Ok(host) => {
            let hops = record.hops->0;
            let p = place(t, host).0;
            lemma_place(t, host);
            assert(p.nodes[0] == t.nodes[0]);
            assert forall|j: int| 0 <= j < hops.len() implies #[trigger] step_taken(
                r,
                t.nodes[0].host.address,
                hops,
                j,
            ) by {
                lemma_follow_links(p, 0, hops, r, j);
            }
        },
    }
}

/// Adding records keeps a sound topology sound and adds to it.
proof fn lemma_add_records_sound(t: Topology, records: Seq<HostRecordView>, r: Topology)
    requires
        sound(t),
        add_records(t, records) == Ok::<Topology, ScanError>(r),
    ensures
        sound(r),
        extends(t, r),
    decreases records.len(),
{
    if records.len() > 0 {
        let next = add_record(t, records[0])->Ok_0;
        lemma_add_record_sound(t, records[0], next);
        lemma_add_records_sound(next, records.drop_first(), r);
        lemma_extends_twice(t, next, r);
    }
}

/// After records are added the nodes stand for the addresses they stood for
/// and for those that the records bring.
proof fn lemma_add_records_nodes(t: Topology, records: Seq<HostRecordView>, r: Topology, a: IpAddress)
    requires
        sound(t),
        add_records(t, records) == Ok::<Topology, ScanError>(r),
    ensures
        present(r.nodes, a) <==> present(t.nodes, a) || records_bring(records, a),
    decreases records.len(),
{
    if records.len() == 0 {
        if records_bring(records, a) {
            let k = choose|k: int| brought_at(records, k, a);
            assert(false);
        }
    } else {
        let next = add_record(t, records[0])->Ok_0;
        lemma_add_record_sound(t, records[0], next);
        lemma_add_record_nodes(t, records[0], next, a);
        lemma_add_records_nodes(next, records.drop_first(), r, a);
        lemma_records_shift(records, a);
    }
}

/// After records are added, the steps of the trace of each record that gives
/// a host are in the topology.
proof fn lemma_add_records_links(t: Topology, records: Seq<HostRecordView>, r: Topology, k: int)
    requires
        sound(t),
        add_records(t, records) == Ok::<Topology, ScanError>(r),
        0 <= k < records.len(),
    ensures
        record_taken(r, t.nodes[0].host.address, records[k]),
    decreases records.len(),
{
    let next = add_record(t, records[0])->Ok_0;
    let rest = records.drop_first();
    let start = t.nodes[0].host.address;
    lemma_add_record_sound(t, records[0], next);
    lemma_add_records_sound(next, rest, r);
    assert(next.nodes[0] == t.nodes[0]);
    if k == 0 {
        lemma_add_record_links(t, records[0], next);
        lemma_record_kept(next, r, start, records[0]);
    } else {
        lemma_add_records_links(next, rest, r, k - 1);
        assert(rest[k - 1] == records[k]);
    }
}

/// The steps of a record's trace stay in a topology that grows and stays
/// sound.
proof fn lemma_record_kept(earlier: Topology, later: Topology, start: IpAddress, record: HostRecordView)
    requires
        extends(earlier, later),
        sound(later),
        record_taken(earlier, start, record),
    ensures
        record_taken(later, start, record),
{
    if full_host(record) is Ok {
        let hops = record.hops->0;
        assert forall|j: int| 0 <= j < hops.len() implies #[trigger] step_taken(
            later,
            start,
            hops,
            j,
        ) by {
            assert(step_taken(earlier, start, hops, j));
            lemma_kept(earlier, later, step_start(start, hops, j), hop_address(hops, j));
        }
    }
}

/// The topology of a scan is sound, and its first node is the origin.
pub proof fn lemma_topology_sound(scan: ScanView, t: Topology)
    requires
        topology_of(scan) == Ok::<Topology, ScanError>(t),
    ensures
        sound(t),
        origin_host() is Ok,
        t.nodes[0] == node_of(origin_host()->Ok_0),
{
    let origin = origin_host()->Ok_0;
    let start = origin_topology(origin);
    assert(sound(start));
    lemma_add_records_sound(start, scan.hosts->0, t);
    assert(t.nodes[0] == start.nodes[0]);
}

/// The graph of a scan has exactly one node for each address that the scan
/// brings: that of the origin, those of the hosts that its records give, and
/// those of the hops in the traces of these hosts, however often an address
/// comes back.
pub proof fn lemma_one_node_per_address(scan: ScanView, t: Topology)
    requires
        topology_of(scan) == Ok::<Topology, ScanError>(t),
    ensures
        distinct_addresses(t.nodes),
        forall|a: IpAddress| #[trigger] present(t.nodes, a) <==> encountered(scan, a),
{
    let origin = origin_host()->Ok_0;
    let start = origin_topology(origin);
    let records = scan.hosts->0;
    assert(sound(start));
    lemma_add_records_sound(start, records, t);
    assert forall|a: IpAddress| #[trigger] present(t.nodes, a) <==> encountered(scan, a) by {
        lemma_add_records_nodes(start, records, t, a);
        if present(start.nodes, a) {
            let at = choose|at: int| has_address(start.nodes, at, a);
            assert(a == origin.address);
        }
        if a == origin.address {
            assert(has_address(start.nodes, 0, a));
        }
    }
}

/// In the graph of a scan no two links join the same two nodes, and for each
/// step of the trace of a host that a record gives, from the origin to the
/// first hop and from each hop to the next, the nodes on either side are
/// joined by exactly one link, whatever other traces take the same step.
pub proof fn lemma_one_link_per_step(scan: ScanView, t: Topology, k: int, j: int)
    requires
        topology_of(scan) == Ok::<Topology, ScanError>(t),
        scan.hosts is Some,
        0 <= k < scan.hosts->0.len(),
        full_host(scan.hosts->0[k]) is Ok,
    ensures
        simple_links(t.links),
        origin_host() is Ok,
        scan.hosts->0[k].hops is Some,
        0 <= j < scan.hosts->0[k].hops->0.len() ==> step_taken(
            t,
            origin_host()->Ok_0.address,
            scan.hosts->0[k].hops->0,
            j,
        ),
{
    let origin = origin_host()->Ok_0;
    let start = origin_topology(origin);
    let records = scan.hosts->0;
    assert(sound(start));
    lemma_add_records_sound(start, records, t);
    lemma_add_records_links(start, records, t, k);
}

/// A record that is down, or lacks its state or its address, gives no host
/// and leaves the topology as it was.
pub proof fn lemma_lacking_record_adds_nothing(t: Topology, record: HostRecordView)
    requires
        lacking(record),
    ensures
        full_host(record) == Err::<HostView, ScanError>(ScanError::InvalidHost),
        add_record(t, record) == Ok::<Topology, ScanError>(t),
{
    assert(full_host_address(record) == Err::<IpAddress, ScanError>(ScanError::InvalidHost));
}

/// A record that is down, or lacks its state or its address, does not end
/// the build, and the other records give the topology that they give
/// without it.
pub proof fn lemma_lacking_record_left_out(t: Topology, records: Seq<HostRecordView>, k: int)
    requires
        0 <= k < records.len(),
        lacking(records[k]),
    ensures
        add_records(t, records) == add_records(t, records.remove(k)),
    decreases k,
{
    if k == 0 {
        lemma_lacking_record_adds_nothing(t, records[0]);
        assert(records.remove(0) =~= records.drop_first());
    } else {
        let without = records.remove(k);
        assert(without[0] == records[0]);
        assert(without.drop_first() =~= records.drop_first().remove(k - 1));
        match add_record(t, records[0]) {
            Err(e) => {},
            Ok(next) => {
                lemma_lacking_record_left_out(next, records.drop_first(), k - 1);
            },
        }
    }
}

/// A graph that carries a sound topology lost no node, holds each link once,
/// and holds no link a second time the other way round.
pub proof fn lemma_graph_links_once(graph: HostGraph, t: Topology, a: int, b: int)
    requires
        carries(graph, t),
        sound(t),
    ensures
        all_present(graph_nodes(graph)),
        graph_nodes(graph).len() == t.nodes.len(),
        graph_links(graph).count((a, b)) <= 1,
        a != b ==> graph_links(graph).count((a, b)) + graph_links(graph).count((b, a)) <= 1,
        linked(t.links, a, b) <==> graph_links(graph).count((a, b)) + graph_links(graph).count(
            (b, a),
        ) >= 1,
{
    assert forall|i: int| 0 <= i < slots(t.nodes).len() implies (#[trigger] slots(
        t.nodes,
    )[i]) is Some by {}
    assert forall|i: int, j: int| 0 <= i < t.links.len() && 0 <= j < t.links.len() && i
        != j implies t.links[i] != t.links[j] by {
        if i < j {
            assert(!joins(t.links[i], t.links[j].0, t.links[j].1));
        } else {
            assert(!joins(t.links[j], t.links[i].0, t.links[i].1));
        }
    }
    assert(t.links.no_duplicates());
    t.links.lemma_multiset_has_no_duplicates();
    t.links.to_multiset_ensures();
    let held = t.links.to_multiset();
    assert(held.contains((a, b)) ==> held.count((a, b)) == 1);
    assert(held.contains((b, a)) ==> held.count((b, a)) == 1);
    if a != b && t.links.contains((a, b)) && t.links.contains((b, a)) {
        let i = choose|i: int| 0 <= i < t.links.len() && t.links[i] == (a, b);
        let j = choose|j: int| 0 <= j < t.links.len() && t.links[j] == (b, a);
        if i < j {
            assert(!joins(t.links[i], t.links[j].0, t.links[j].1));
        } else if j < i {
            assert(!joins(t.links[j], t.links[i].0, t.links[i].1));
        }
    }
}

} // verus!
