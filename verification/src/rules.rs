//! The rules that a declared topology has to meet, as predicates on its
//! mathematical value.

use crate::config::{DroneView, NodeView, Topology};
use crate::graph::{connected, symmetric};
use crate::pdr::is_probability;
use vstd::prelude::*;

verus! {

/// A neighbor list is well formed for the node `id`: the node is not its own
/// neighbor, and no neighbor is listed twice.
pub open spec fn connection_ok(id: u8, connected: Seq<u8>) -> bool {
    !connected.contains(id) && connected.no_duplicates()
}

/// Every listed neighbor is one of `ids`.
pub open spec fn subset_ok(connected: Seq<u8>, ids: Seq<u8>) -> bool {
    forall|i: int| 0 <= i < connected.len() ==> ids.contains(#[trigger] connected[i])
}

/// A client is linked to one or two nodes, all of them drones, in a well
/// formed list.
pub open spec fn client_ok(client: NodeView, drone_ids: Seq<u8>) -> bool {
    &&& 1 <= client.neighbors.len() <= 2
    &&& subset_ok(client.neighbors, drone_ids)
    &&& connection_ok(client.id, client.neighbors)
}

/// A server is linked to at least two nodes, all of them drones, in a well
/// formed list.
pub open spec fn server_ok(server: NodeView, drone_ids: Seq<u8>) -> bool {
    &&& server.neighbors.len() >= 2
    &&& subset_ok(server.neighbors, drone_ids)
    &&& connection_ok(server.id, server.neighbors)
}

/// Every drone's drop rate is a probability.
pub open spec fn pdrs_ok(drones: Seq<DroneView>) -> bool {
    forall|i: int| 0 <= i < drones.len() ==> is_probability((#[trigger] drones[i]).pdr)
}

/// Every drone's neighbor list is well formed.
pub open spec fn drones_ok(drones: Seq<DroneView>) -> bool {
    forall|i: int|
        0 <= i < drones.len() ==> connection_ok((#[trigger] drones[i]).id, drones[i].neighbors)
}

/// Every client meets [`client_ok`].
pub open spec fn clients_ok(clients: Seq<NodeView>, drone_ids: Seq<u8>) -> bool {
    forall|i: int| 0 <= i < clients.len() ==> client_ok(#[trigger] clients[i], drone_ids)
}

/// Every server meets [`server_ok`].
pub open spec fn servers_ok(servers: Seq<NodeView>, drone_ids: Seq<u8>) -> bool {
    forall|i: int| 0 <= i < servers.len() ==> server_ok(#[trigger] servers[i], drone_ids)
}

/// The edges are symmetric, and the nodes with these ids are connected by
/// them.
pub open spec fn bidirectional_and_connected(ids: Seq<u8>, edges: Set<(u8, u8)>) -> bool {
    symmetric(edges) && connected(ids.to_set(), edges)
}

/// The first rule that a topology breaks, in the order in which the rules
/// are checked.
#[derive(Debug, Clone, Copy, PartialEq, Eq, Structural)]
pub enum Violation {
    /// Two nodes share an id.
    RepeatedId,
    /// A drone's drop rate is no probability.
    PdrOutOfRange,
    /// A drone lists itself, or a neighbor twice.
    DroneConnections,
    /// A client has too few or too many neighbors, lists one that is no
    /// drone, itself, or one twice.
    ClientConnections,
    /// A server has too few neighbors, lists one that is no drone, itself, or
    /// one twice.
    ServerConnections,
    /// An edge lacks its reverse, or some node cannot be reached from another.
    NotBidirectionalOrConnected,
    /// The drones are connected only by way of a client or a server.
    EdgeNodeNotLeaf,
}

impl Topology {
    /// No id is used twice, over all three roles.
    pub open spec fn unique_ids(self) -> bool {
        self.ids().no_duplicates()
    }

    /// Every edge has its reverse and every node can be reached from every
    /// other one.
    pub open spec fn bidirectional_and_connected(self) -> bool {
        bidirectional_and_connected(self.ids(), self.edges())
    }

    /// The same holds of the drones alone, with the edges among them: no
    /// client or server is needed to get from one drone to another.
    pub open spec fn edge_nodes_are_leaves(self) -> bool {
        bidirectional_and_connected(self.drone_ids(), self.drone_edges())
    }

    /// The topology meets every rule.
    pub open spec fn valid(self) -> bool {
        &&& self.unique_ids()
        &&& pdrs_ok(self.drones)
        &&& drones_ok(self.drones)
        &&& clients_ok(self.clients, self.drone_ids())
        &&& servers_ok(self.servers, self.drone_ids())
        &&& self.bidirectional_and_connected()
        &&& self.edge_nodes_are_leaves()
    }

    /// The first rule that the topology breaks, if it breaks one.
    pub open spec fn first_violation(self) -> Option<Violation> {
        if !self.unique_ids() {
            Some(Violation::RepeatedId)
        } else if !pdrs_ok(self.drones) {
            Some(Violation::PdrOutOfRange)
        } else if !drones_ok(self.drones) {
            Some(Violation::DroneConnections)
        } else if !clients_ok(self.clients, self.drone_ids()) {
            Some(Violation::ClientConnections)
        } else if !servers_ok(self.servers, self.drone_ids()) {
            Some(Violation::ServerConnections)
        } else if !self.bidirectional_and_connected() {
            Some(Violation::NotBidirectionalOrConnected)
        } else if !self.edge_nodes_are_leaves() {
            Some(Violation::EdgeNodeNotLeaf)
        } else {
            None
        }
    }
}

impl Violation {
    /// A short name for the broken rule.
    pub fn reason(&self) -> (r: &'static str)
        ensures
            r@ == match *self {
                Violation::RepeatedId => "id collision"@,
                Violation::PdrOutOfRange => "probability range"@,
                Violation::DroneConnections => "drone connections"@,
                Violation::ClientConnections => "client connections"@,
                Violation::ServerConnections => "server connections"@,
                Violation::NotBidirectionalOrConnected => "symmetry or connectivity"@,
                Violation::EdgeNodeNotLeaf => "edge node placement"@,
            },
    {
        match self {
            Violation::RepeatedId => "id collision",
            Violation::PdrOutOfRange => "probability range",
            Violation::DroneConnections => "drone connections",
            Violation::ClientConnections => "client connections",
            Violation::ServerConnections => "server connections",
            Violation::NotBidirectionalOrConnected => "symmetry or connectivity",
            Violation::EdgeNodeNotLeaf => "edge node placement",
        }
    }
}

} // verus!
