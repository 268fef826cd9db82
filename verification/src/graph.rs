//! The force graph that carries the topology, and the simulation that lays
//! it out. Both belong to `fdg_sim` and `petgraph`: this module says what
//! the library relies on of them.

use crate::host::{HostView, SimpleHost};
use fdg_sim::petgraph::stable_graph::{NodeIndex, StableGraph};
use fdg_sim::petgraph::Undirected;
use fdg_sim::{ForceGraph, ForceGraphHelper, Node, Simulation};
use vstd::multiset::Multiset;
use vstd::prelude::*;

verus! {

/// `petgraph::stable_graph::StableGraph`, of which the verifier sees nothing.
#[verifier::external_type_specification]
#[verifier::external_body]
#[verifier::reject_recursive_types(N)]
#[verifier::reject_recursive_types(E)]
#[verifier::reject_recursive_types(Ty)]
#[verifier::reject_recursive_types(Ix)]
pub struct ExStableGraph<N, E, Ty, Ix>(StableGraph<N, E, Ty, Ix>);

/// `petgraph::Undirected`, the mark of a graph whose edges have no direction.
#[verifier::external_type_specification]
#[verifier::external_body]
pub struct ExUndirected(Undirected);

/// `fdg_sim::Node`, the weight of a node in a force graph: a name, the data,
/// and where the layout has the node.
#[verifier::external_type_specification]
#[verifier::external_body]
#[verifier::reject_recursive_types(N)]
pub struct ExNode<N>(Node<N>);

/// `fdg_sim::Simulation`, which owns a force graph and moves its nodes.
#[verifier::external_type_specification]
#[verifier::external_body]
#[verifier::reject_recursive_types(N)]
#[verifier::reject_recursive_types(E)]
#[verifier::reject_recursive_types(Ty)]
pub struct ExSimulation<N, E, Ty>(Simulation<N, E, Ty>);

/// An undirected force graph of hosts, with edges that carry nothing.
pub type HostGraph = ForceGraph<SimpleHost, ()>;

/// A simulation that lays a `HostGraph` out.
pub type HostSimulation = Simulation<SimpleHost, ()>;

/// A handle to a node of a graph: its index.
pub type NodeHandle = u32;

/// What the library reads of a node: its name and its host.
pub struct NodeView {
    pub name: Seq<char>,
    pub host: HostView,
}

/// The node slots of a graph in the order of their indices: `None` where a
/// node was removed and its index not given out again.
pub uninterp spec fn graph_nodes(graph: HostGraph) -> Seq<Option<NodeView>>;

/// The edges of a graph, each by the indices of its two nodes in the order in
/// which they were given when the edge was added.
pub uninterp spec fn graph_links(graph: HostGraph) -> Multiset<(int, int)>;

/// The node slots of the graph that a simulation holds.
pub uninterp spec fn simulation_nodes(simulation: HostSimulation) -> Seq<Option<NodeView>>;

/// No node of the graph was removed: every slot holds a node.
pub open spec fn all_present(slots: Seq<Option<NodeView>>) -> bool {
    forall|i: int| 0 <= i < slots.len() ==> (#[trigger] slots[i]) is Some
}

/// The host of the node in slot `handle`, where the slot holds a node.
pub open spec fn host_at(slots: Seq<Option<NodeView>>, handle: int) -> Option<HostView> {
    if 0 <= handle < slots.len() {
        match slots[handle] {
            Some(node) => Some(node.host),
            None => None,
        }
    } else {
        None
    }
}

/// An optional host by its view.
pub open spec fn host_view(host: Option<&SimpleHost>) -> Option<HostView> {
    match host {
        Some(host) => Some(host@),
        None => None,
    }
}

/// `StableGraph::default`: a graph without node slots and without edges.
#[verifier::external_body]
pub(crate) fn empty_graph() -> (graph: HostGraph)
    ensures
        graph_nodes(graph) == Seq::<Option<NodeView>>::empty(),
        graph_links(graph) == (Multiset::<(int, int)>::empty()),
{
    ForceGraph::default()
}

/// `ForceGraphHelper::add_force_node`, which hands a new `Node` with this
/// name and host to `StableGraph::add_node`. Where no node was ever removed
/// the node gets the next index, and nothing else changes. The call panics in
/// a graph that is full, which `requires` leaves out.
#[verifier::external_body]
pub(crate) fn add_node(graph: &mut HostGraph, name: &str, host: SimpleHost) -> (handle: NodeHandle)
    requires
        all_present(graph_nodes(*old(graph))),
        graph_nodes(*old(graph)).len() < u32::MAX,
    ensures
        handle == graph_nodes(*old(graph)).len(),
        graph_nodes(*final(graph)) == graph_nodes(*old(graph)).push(
            Some(NodeView { name: name@, host: host@ }),
        ),
        graph_links(*final(graph)) == graph_links(*old(graph)),
{
    graph.add_force_node(name, host).index() as u32
}

/// `StableGraph::add_edge` from `a` to `b`: one more edge, also where the two
/// are linked already. The call panics where one of them is no node, and in a
/// graph that is full; `requires` leaves both out.
#[verifier::external_body]
pub(crate) fn add_link(graph: &mut HostGraph, a: NodeHandle, b: NodeHandle)
    requires
        all_present(graph_nodes(*old(graph))),
        a < graph_nodes(*old(graph)).len(),
        b < graph_nodes(*old(graph)).len(),
        graph_links(*old(graph)).len() < u32::MAX,
    ensures
        graph_links(*final(graph)) == graph_links(*old(graph)).insert((a as int, b as int)),
        graph_nodes(*final(graph)) == graph_nodes(*old(graph)),
{
    graph.add_edge(NodeIndex::new(a as usize), NodeIndex::new(b as usize), ());
}

/// `StableGraph::contains_edge`, which in an undirected graph finds an edge
/// between two nodes whichever way round it was added.
#[verifier::external_body]
pub(crate) fn has_link(graph: &HostGraph, a: NodeHandle, b: NodeHandle) -> (linked: bool)
    requires
        all_present(graph_nodes(*graph)),
        a < graph_nodes(*graph).len(),
        b < graph_nodes(*graph).len(),
    ensures
        linked == (graph_links(*graph).count((a as int, b as int)) > 0 || graph_links(
            *graph,
        ).count((b as int, a as int)) > 0),
{
    graph.contains_edge(NodeIndex::new(a as usize), NodeIndex::new(b as usize))
}

/// `StableGraph::node_weight`, of which the host is handed out: the host of
/// the node with this index, where the slot of that index holds a node.
#[verifier::external_body]
pub(crate) fn node_host(graph: &HostGraph, handle: NodeHandle) -> (host: Option<&SimpleHost>)
    ensures
        host_view(host) == host_at(graph_nodes(*graph), handle as int),
{
    graph.node_weight(NodeIndex::new(handle as usize)).map(|node| &node.data)
}

/// `Simulation::get_graph`: the graph that the simulation holds, with the
/// node slots that `simulation_nodes` names.
#[verifier::external_body]
pub(crate) fn simulation_graph(simulation: &HostSimulation) -> (graph: &HostGraph)
    ensures
        graph_nodes(*graph) == simulation_nodes(*simulation),
{
    simulation.get_graph()
}

} // verus!
