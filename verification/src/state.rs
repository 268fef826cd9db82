//! The state of the viewer: the simulation it shows and the node that is
//! selected in it.

use crate::graph::{
    host_at, node_host, simulation_graph, simulation_nodes, HostSimulation, NodeHandle, NodeView,
};
use crate::host::HostView;
use crate::os::{OsFamily, OsGuess, OsLabel};
use crate::picker::{find_nearest, nearest};
use vstd::prelude::*;

verus! {

/// How a node is painted.
#[derive(Clone, Copy, Debug, PartialEq, Eq, Structural)]
pub enum Paint {
    Default,
    Highlighted,
}

/// The picture that stands for an operating system.
#[derive(Clone, Copy, Debug, PartialEq, Eq, Structural)]
pub enum OsTexture {
    Tux,
    Daemon,
    Puffy,
}

/// What a change of the selection asks of the renderer, in this order: to
/// paint `reverted` in the default way, then to paint `highlighted` as
/// selected.
#[derive(Clone, Copy, Debug, PartialEq, Eq, Structural)]
pub struct PaintUpdate {
    pub reverted: Option<NodeHandle>,
    pub highlighted: Option<NodeHandle>,
}

/// The state of the viewer.
pub struct ApplicationState {
    pub simulation: HostSimulation,
    pub node_selected: Option<NodeHandle>,
    pub selected_os_texture: Option<OsTexture>,
    pub label_nodes: bool,
}

/// A change of the selection: the choice replaces what was selected, which
/// is reverted first, and is highlighted.
pub open spec fn select_step(before: Option<NodeHandle>, choice: Option<NodeHandle>) -> (
    Option<NodeHandle>,
    PaintUpdate,
) {
    (choice, PaintUpdate { reverted: before, highlighted: choice })
}

/// The paints of the nodes after the renderer has done what `update` asks.
pub open spec fn repainted(paints: Map<NodeHandle, Paint>, update: PaintUpdate) -> Map<
    NodeHandle,
    Paint,
> {
    let reverted = match update.reverted {
        Some(node) => paints.insert(node, Paint::Default),
        None => paints,
    };
    match update.highlighted {
        Some(node) => reverted.insert(node, Paint::Highlighted),
        None => reverted,
    }
}

/// The selected node is highlighted, and it alone.
pub open spec fn shows(paints: Map<NodeHandle, Paint>, selection: Option<NodeHandle>) -> bool {
    forall|node: NodeHandle| #[trigger]
        paints.contains_key(node) ==> (paints[node] == Paint::Highlighted <==> selection == Some(
            node,
        ))
}

/// The host of the selected node.
pub open spec fn host_of(nodes: Seq<Option<NodeView>>, selection: Option<NodeHandle>) -> Option<
    HostView,
> {
    match selection {
        Some(node) => host_at(nodes, node as int),
        None => None,
    }
}

/// The address of the selected node, as text.
pub open spec fn address_of(nodes: Seq<Option<NodeView>>, selection: Option<NodeHandle>) -> Option<
    Seq<char>,
> {
    match host_of(nodes, selection) {
        Some(host) => Some(host.address.text()),
        None => None,
    }
}

/// The guess of the selected node: `None` without a selected node,
/// `Some(None)` where the selected node carries no guess.
pub open spec fn guess_of(nodes: Seq<Option<NodeView>>, selection: Option<NodeHandle>) -> Option<
    Option<OsLabel>,
> {
    match host_of(nodes, selection) {
        Some(host) => Some(host.os_guess),
        None => None,
    }
}

/// The picture for a guess: the families that have one, and no other.
pub open spec fn texture_for(guess: Option<Option<OsLabel>>) -> Option<OsTexture> {
    match guess {
        Some(Some(label)) => match label.family {
            OsFamily::Linux => Some(OsTexture::Tux),
            OsFamily::FreeBSD => Some(OsTexture::Daemon),
            OsFamily::OpenBSD => Some(OsTexture::Puffy),
            OsFamily::Other => None,
        },
        _ => None,
    }
}

/// An optional text by its characters.
pub open spec fn text_view(text: Option<String>) -> Option<Seq<char>> {
    match text {
        Some(text) => Some(text@),
        None => None,
    }
}

/// An optional optional guess by its view.
pub open spec fn guess_view(guess: Option<Option<OsGuess>>) -> Option<Option<OsLabel>> {
    match guess {
        Some(Some(guess)) => Some(Some(guess@)),
        Some(None) => Some(None),
        None => None,
    }
}

/// The node that a pick selects: the nearest that is hit, where it is a node
/// of the graph.
pub open spec fn picked(nodes: Seq<Option<NodeView>>, distances: Seq<Option<i64>>) -> Option<
    NodeHandle,
> {
    match nearest(distances) {
        Some(at) => if at <= u32::MAX && host_at(nodes, at) is Some {
            Some(at as u32)
        } else {
            None
        },
        None => None,
    }
}

impl ApplicationState {
    /// The node slots of the graph that the simulation holds.
    pub open spec fn nodes(&self) -> Seq<Option<NodeView>> {
        simulation_nodes(self.simulation)
    }

    /// The selected node.
    pub open spec fn selection(&self) -> Option<NodeHandle> {
        self.node_selected
    }

    /// The picture that is shown for the selected node.
    pub open spec fn texture(&self) -> Option<OsTexture> {
        self.selected_os_texture
    }

    /// Whether the nodes are labelled.
    pub open spec fn labelled(&self) -> bool {
        self.label_nodes
    }

    /// The selected node is a node of the graph, and the picture is the one
    /// for its guess.
    pub open spec fn wf(&self) -> bool {
        &&& self.selection() is Some ==> host_of(self.nodes(), self.selection()) is Some
        &&& self.texture() == texture_for(guess_of(self.nodes(), self.selection()))
    }

    /// The state of a viewer that shows `simulation`: nothing is selected and
    /// the nodes are labelled.
    pub fn new(simulation: HostSimulation) -> (state: Self)
        ensures
            state.simulation == simulation,
            state.selection() is None,
            state.texture() is None,
            state.labelled(),
            state.wf(),
    {
        ApplicationState {
            simulation,
            node_selected: None,
            selected_os_texture: None,
            label_nodes: true,
        }
    }

    /// The selected node.
    pub fn selected_node(&self) -> (node: Option<NodeHandle>)
        ensures
            node == self.selection(),
    {
        self.node_selected
    }

    /// The picture that is shown for the selected node.
    pub fn selected_os_texture(&self) -> (texture: Option<OsTexture>)
        ensures
            texture == self.texture(),
    {
        self.selected_os_texture
    }

    /// Whether the nodes are labelled.
    pub fn label_nodes(&self) -> (labelled: bool)
        ensures
            labelled == self.labelled(),
    {
        self.label_nodes
    }

    /// Switches the labels of the nodes on or off.
    pub fn set_label_nodes(&mut self, labelled: bool)
        ensures
            final(self).labelled() == labelled,
            final(self).selection() == old(self).selection(),
            final(self).texture() == old(self).texture(),
            final(self).simulation == old(self).simulation,
    {
        self.label_nodes = labelled;
    }

    /// Whether `node` is a node of the graph.
    pub fn is_node(&self, node: NodeHandle) -> (found: bool)
        ensures
            found == host_at(self.nodes(), node as int) is Some,
    {
        node_host(simulation_graph(&self.simulation), node).is_some()
    }

    /// How `node` is painted: highlighted where it is selected.
    pub fn paint_of(&self, node: NodeHandle) -> (paint: Paint)
        ensures
            paint == (if self.selection() == Some(node) {
                Paint::Highlighted
            } else {
                Paint::Default
            }),
    {
        match self.node_selected {
            Some(selected) => if selected == node {
                Paint::Highlighted
            } else {
                Paint::Default
            },
            None => Paint::Default,
        }
    }

    /// The address of the selected node, as text.
    pub fn get_selected_ip(&self) -> (address: Option<String>)
        ensures
            text_view(address) == address_of(self.nodes(), self.selection()),
    {
        match self.node_selected {
            None => None,
            Some(node) => match node_host(simulation_graph(&self.simulation), node) {
                Some(host) => Some(host.main_addr.to_text()),
                None => None,
            },
        }
    }

    /// The address of the selected node, as text; empty without one.
    pub fn selected_ip(&self) -> (address: String)
        ensures
            address@ == (match address_of(self.nodes(), self.selection()) {
                Some(text) => text,
                None => Seq::<char>::empty(),
            }),
    {
        match self.get_selected_ip() {
            Some(address) => address,
            None => String::new(),
        }
    }

    /// The guess of the selected node: `None` without a selected node,
    /// `Some(None)` where the selected node carries no guess.
    pub fn get_selected_os(&self) -> (guess: Option<Option<OsGuess>>)
        ensures
            guess_view(guess) == guess_of(self.nodes(), self.selection()),
    {
        match self.node_selected {
            None => None,
            Some(node) => match node_host(simulation_graph(&self.simulation), node) {
                Some(host) => match &host.os_guess {
                    Some(guess) => Some(Some(guess.clone())),
                    None => Some(None),
                },
                None => None,
            },
        }
    }

    /// Sets the picture to the one for the guess of the selected node.
    pub fn set_os_texture(&mut self)
        ensures
            final(self).texture() == texture_for(guess_of(old(self).nodes(), old(self).selection())),
            final(self).selection() == old(self).selection(),
            final(self).labelled() == old(self).labelled(),
            final(self).simulation == old(self).simulation,
    {
        self.selected_os_texture = match self.get_selected_os() {
            None => None,
            Some(None) => None,
            Some(Some(guess)) => match guess.family() {
                OsFamily::Linux => Some(OsTexture::Tux),
                OsFamily::FreeBSD => Some(OsTexture::Daemon),
                OsFamily::OpenBSD => Some(OsTexture::Puffy),
                OsFamily::Other => None,
            },
        };
    }

    /// Replaces the selection by `selected_node`, sets the picture to the one
    /// for the new selection, and says what the renderer has to repaint.
    pub fn set_selected_node(&mut self, selected_node: Option<NodeHandle>) -> (update: PaintUpdate)
        requires
            selected_node is Some ==> host_of(old(self).nodes(), selected_node) is Some,
        ensures
            (final(self).selection(), update) == select_step(old(self).selection(), selected_node),
            final(self).texture() == texture_for(guess_of(old(self).nodes(), selected_node)),
            final(self).labelled() == old(self).labelled(),
            final(self).simulation == old(self).simulation,
            final(self).wf(),
    {
        let reverted = self.node_selected;
        self.node_selected = selected_node;
        self.set_os_texture();
        PaintUpdate { reverted, highlighted: selected_node }
    }

    /// The node that a pick selects: the nearest of the nodes that the ray
    /// hits, `distances` holding for each node, in the order of the node
    /// indices, the distance at which it is hit.
    pub fn find_nearest_intersection(&self, distances: &Vec<Option<i64>>) -> (node: Option<
        NodeHandle,
    >)
        ensures
            node == picked(self.nodes(), distances@),
    {
        match find_nearest(distances) {
            None => None,
            Some(at) => {
                if at > 0xffff_ffff {
                    None
                } else if self.is_node(at as u32) {
                    Some(at as u32)
                } else {
                    None
                }
            },
        }
    }

    /// Selects the node that a pick selects. A pick that hits no node clears
    /// the selection.
    pub fn select_nearest_intersection(&mut self, distances: &Vec<Option<i64>>) -> (update:
        PaintUpdate)
        ensures
            (final(self).selection(), update) == select_step(
                old(self).selection(),
                picked(old(self).nodes(), distances@),
            ),
            final(self).texture() == texture_for(
                guess_of(old(self).nodes(), picked(old(self).nodes(), distances@)),
            ),
            final(self).labelled() == old(self).labelled(),
            final(self).simulation == old(self).simulation,
            final(self).wf(),
    {
        let node = self.find_nearest_intersection(distances);
        self.set_selected_node(node)
    }
}

/// Selecting a node and then nothing leaves nothing selected and no address
/// to show, and asks the renderer once to revert the node, and for nothing
/// else.
pub proof fn lemma_select_then_clear(
    nodes: Seq<Option<NodeView>>,
    before: Option<NodeHandle>,
    node: NodeHandle,
)
    ensures
        ({
            let (selected, _) = select_step(before, Some(node));
            let (cleared, update) = select_step(selected, None);
            &&& cleared is None
            &&& address_of(nodes, cleared) is None
            &&& update == (PaintUpdate { reverted: Some(node), highlighted: None })
        }),
{
}

/// Selecting the same node twice in a row leaves the selection and, once the
/// renderer has done what it was asked, the paints as they were after the
/// first time: the node is highlighted, and it alone.
pub proof fn lemma_select_again(
    paints: Map<NodeHandle, Paint>,
    before: Option<NodeHandle>,
    node: NodeHandle,
)
    requires
        shows(paints, before),
    ensures
        ({
            let (once, first) = select_step(before, Some(node));
            let (twice, second) = select_step(once, Some(node));
            let painted = repainted(paints, first);
            &&& twice == once
            &&& second == (PaintUpdate { reverted: Some(node), highlighted: Some(node) })
            &&& repainted(painted, second) == painted
            &&& shows(painted, once)
            &&& painted[node] == Paint::Highlighted
        }),
{
    let (once, first) = select_step(before, Some(node));
    let (twice, second) = select_step(once, Some(node));
    let painted = repainted(paints, first);
    lemma_repainted_shows(paints, before, Some(node));
    assert(repainted(painted, second) =~= painted);
}

/// Where the selected node is highlighted, and it alone, it is so again
/// after a change of the selection, once the renderer has done what the
/// change asks.
pub proof fn lemma_repainted_shows(
    paints: Map<NodeHandle, Paint>,
    before: Option<NodeHandle>,
    choice: Option<NodeHandle>,
)
    requires
        shows(paints, before),
    ensures
        shows(repainted(paints, select_step(before, choice).1), select_step(before, choice).0),
{
    let update = select_step(before, choice).1;
    let after = repainted(paints, update);
    assert forall|node: NodeHandle| #[trigger] after.contains_key(node) implies (after[node]
        == Paint::Highlighted <==> choice == Some(node)) by {
        if paints.contains_key(node) {
            assert(paints[node] == Paint::Highlighted <==> before == Some(node));
        }
    }
}

} // verus!
