//! The declared topology: drones, clients and servers with their neighbor
//! lists, and what such a declaration means as a graph.
//!
//! Drones relay packets; clients and servers are the edge nodes that start and
//! serve requests. All three share one namespace of node ids.

use vstd::prelude::*;

verus! {

/// A drone as it is declared: its id, the nodes it is linked to, and its
/// packet drop rate.
///
/// The drop rate is kept as the bit pattern of an IEEE 754 single-precision
/// number (what `f32::to_bits` gives), so that its range can be decided on
/// integers alone; see [`crate::pdr`].
#[derive(Debug, Clone)]
pub struct Drone {
    pub id: u8,
    pub connected_node_ids: Vec<u8>,
    pub pdr: u32,
}

/// A client as it is declared: its id and the drones it is linked to.
#[derive(Debug, Clone)]
pub struct Client {
    pub id: u8,
    pub connected_drone_ids: Vec<u8>,
}

/// A server as it is declared: its id and the drones it is linked to.
#[derive(Debug, Clone)]
pub struct Server {
    pub id: u8,
    pub connected_drone_ids: Vec<u8>,
}

/// A node of any role with the neighbors that count for one of the graph
/// checks.
pub struct Node {
    pub id: u8,
    pub neighbors: Vec<u8>,
}

/// A node of any role, as the graph rules see it.
pub struct NodeView {
    pub id: u8,
    pub neighbors: Seq<u8>,
}

/// A drone with its drop rate.
pub struct DroneView {
    pub id: u8,
    pub neighbors: Seq<u8>,
    pub pdr: u32,
}

impl DroneView {
    /// The drone without its drop rate.
    pub open spec fn node(self) -> NodeView {
        NodeView { id: self.id, neighbors: self.neighbors }
    }
}

impl View for Drone {
    type V = DroneView;

    open spec fn view(&self) -> DroneView {
        DroneView { id: self.id, neighbors: self.connected_node_ids@, pdr: self.pdr }
    }
}

impl View for Client {
    type V = NodeView;

    open spec fn view(&self) -> NodeView {
        NodeView { id: self.id, neighbors: self.connected_drone_ids@ }
    }
}

impl View for Server {
    type V = NodeView;

    open spec fn view(&self) -> NodeView {
        NodeView { id: self.id, neighbors: self.connected_drone_ids@ }
    }
}

impl View for Node {
    type V = NodeView;

    open spec fn view(&self) -> NodeView {
        NodeView { id: self.id, neighbors: self.neighbors@ }
    }
}

/// The views of a list of nodes, in order.
pub open spec fn node_views(nodes: Seq<Node>) -> Seq<NodeView> {
    nodes.map_values(|n: Node| n@)
}

/// The views of a list of drones, in order.
pub open spec fn drone_views(drones: Seq<Drone>) -> Seq<DroneView> {
    drones.map_values(|d: Drone| d@)
}

/// The views of a list of clients, in order.
pub open spec fn client_views(clients: Seq<Client>) -> Seq<NodeView> {
    clients.map_values(|c: Client| c@)
}

/// The views of a list of servers, in order.
pub open spec fn server_views(servers: Seq<Server>) -> Seq<NodeView> {
    servers.map_values(|s: Server| s@)
}

/// The ids of a list of drones, in order.
pub open spec fn drone_ids(drones: Seq<DroneView>) -> Seq<u8> {
    drones.map_values(|d: DroneView| d.id)
}

/// A list of drones as plain nodes.
pub open spec fn drone_nodes(drones: Seq<DroneView>) -> Seq<NodeView> {
    drones.map_values(|d: DroneView| d.node())
}

/// The ids of a list of nodes, in order.
pub open spec fn node_ids(nodes: Seq<NodeView>) -> Seq<u8> {
    nodes.map_values(|n: NodeView| n.id)
}

/// The directed edges that a list of nodes declares: `(a, b)` is one of them
/// when some node with id `a` has `b` in its neighbor list.
pub open spec fn edges_of(nodes: Seq<NodeView>) -> Set<(u8, u8)> {
    Set::new(
        |e: (u8, u8)|
            exists|i: int|
                0 <= i < nodes.len() && (#[trigger] nodes[i]).id == e.0
                    && nodes[i].neighbors.contains(e.1),
    )
}

/// The edges of `edges` whose target is one of `targets`.
pub open spec fn edges_into(edges: Set<(u8, u8)>, targets: Seq<u8>) -> Set<(u8, u8)> {
    Set::new(|e: (u8, u8)| edges.contains(e) && targets.contains(e.1))
}

/// A declared topology as a mathematical value.
pub struct Topology {
    pub drones: Seq<DroneView>,
    pub clients: Seq<NodeView>,
    pub servers: Seq<NodeView>,
}

/// The topology that three declared lists stand for.
pub open spec fn topology_of(drones: Seq<Drone>, clients: Seq<Client>, servers: Seq<Server>)
    -> Topology {
    Topology {
        drones: drone_views(drones),
        clients: client_views(clients),
        servers: server_views(servers),
    }
}

impl Topology {
    /// The drones as plain nodes.
    pub open spec fn drone_nodes(self) -> Seq<NodeView> {
        drone_nodes(self.drones)
    }

    /// Every node: the drones first, then the clients, then the servers.
    pub open spec fn nodes(self) -> Seq<NodeView> {
        self.drone_nodes() + self.clients + self.servers
    }

    /// The ids of the drones, in order.
    pub open spec fn drone_ids(self) -> Seq<u8> {
        drone_ids(self.drones)
    }

    /// The ids of all nodes, in the order of [`Topology::nodes`].
    pub open spec fn ids(self) -> Seq<u8> {
        self.drone_ids() + node_ids(self.clients) + node_ids(self.servers)
    }

    /// The number of nodes.
    pub open spec fn len(self) -> nat {
        self.nodes().len()
    }

    /// Every declared edge.
    pub open spec fn edges(self) -> Set<(u8, u8)> {
        edges_of(self.nodes())
    }

    /// The edges that lead from a drone to a drone.
    pub open spec fn drone_edges(self) -> Set<(u8, u8)> {
        edges_into(edges_of(self.drone_nodes()), self.drone_ids())
    }
}

/// The ids of a topology are the ids of its nodes, one for one.
pub proof fn lemma_ids_of_nodes(t: Topology)
    ensures
        t.ids() == node_ids(t.nodes()),
        t.drone_ids() == node_ids(t.drone_nodes()),
        t.ids().len() == t.len(),
{
    assert(t.ids() =~= node_ids(t.nodes()));
    assert(t.drone_ids() =~= node_ids(t.drone_nodes()));
}

/// The edges of a list of nodes are those of its parts.
pub proof fn lemma_edges_of_concat(a: Seq<NodeView>, b: Seq<NodeView>)
    ensures
        edges_of(a + b) == edges_of(a).union(edges_of(b)),
{
    let ab = a + b;
    assert forall|e: (u8, u8)| edges_of(ab).contains(e) <==> (edges_of(a).contains(e) || edges_of(
        b,
    ).contains(e)) by {
        if edges_of(ab).contains(e) {
            let i = choose|i: int|
                0 <= i < ab.len() && (#[trigger] ab[i]).id == e.0 && ab[i].neighbors.contains(e.1);
            if i < a.len() {
                assert(a[i] == ab[i]);
            } else {
                assert(b[i - a.len()] == ab[i]);
            }
        }
        if edges_of(a).contains(e) {
            let i = choose|i: int|
                0 <= i < a.len() && (#[trigger] a[i]).id == e.0 && a[i].neighbors.contains(e.1);
            assert(ab[i] == a[i]);
        }
        if edges_of(b).contains(e) {
            let i = choose|i: int|
                0 <= i < b.len() && (#[trigger] b[i]).id == e.0 && b[i].neighbors.contains(e.1);
            assert(ab[i + a.len()] == b[i]);
        }
    }
    assert(edges_of(ab) =~= edges_of(a).union(edges_of(b)));
}

/// The edges that one node declares.
pub open spec fn links(id: u8, neighbors: Seq<u8>) -> Set<(u8, u8)> {
    Set::new(|e: (u8, u8)| e.0 == id && neighbors.contains(e.1))
}

/// A list of nodes with one more node declares the edges of both.
pub proof fn lemma_edges_of_push(nodes: Seq<NodeView>, node: NodeView)
    ensures
        edges_of(nodes.push(node)) == edges_of(nodes).union(links(node.id, node.neighbors)),
{
    let one = seq![node];
    assert(nodes.push(node) =~= nodes + one);
    lemma_edges_of_concat(nodes, one);
    assert forall|e: (u8, u8)| edges_of(one).contains(e) <==> links(
        node.id,
        node.neighbors,
    ).contains(e) by {
        if links(node.id, node.neighbors).contains(e) {
            assert(one[0] == node);
        }
    }
    assert(edges_of(one) =~= links(node.id, node.neighbors));
}

} // verus!
