//! What follows from the rules: properties of every topology that passes,
//! and shapes of topology that never pass.

use crate::bootstrap::{LaunchView, Link, RegistryView};
use crate::config::{lemma_ids_of_nodes, NodeView, Topology};
use crate::graph::{is_walk, joined, linked, symmetric};
use crate::pdr::is_probability;
use crate::rules::{client_ok, server_ok, Violation};
use vstd::prelude::*;

verus! {

/// A topology in which some drone's drop rate is no probability (not a
/// number, below 0 or above 1) does not pass; where the ids are unique, that
/// is the rule reported.
pub proof fn lemma_pdr_out_of_range_rejected(t: Topology, i: int)
    requires
        0 <= i < t.drones.len(),
        !is_probability(t.drones[i].pdr),
    ensures
        !t.valid(),
        t.unique_ids() ==> t.first_violation() == Some(Violation::PdrOutOfRange),
{
}

/// A topology in which some drone lists itself, or a neighbor twice, does not
/// pass.
pub proof fn lemma_malformed_drone_rejected(t: Topology, i: int)
    requires
        0 <= i < t.drones.len(),
        t.drones[i].neighbors.contains(t.drones[i].id) || !t.drones[i].neighbors.no_duplicates(),
    ensures
        !t.valid(),
{
}

/// What the rule for one client asks: one or two neighbors, each of them a
/// drone, none listed twice, and the client itself not among them.
pub proof fn lemma_client_rule(client: NodeView, drone_ids: Seq<u8>)
    ensures
        client_ok(client, drone_ids) <==> {
            &&& client.neighbors.len() == 1 || client.neighbors.len() == 2
            &&& forall|k: int|
                0 <= k < client.neighbors.len() ==> drone_ids.contains(
                    #[trigger] client.neighbors[k],
                )
            &&& !client.neighbors.contains(client.id)
            &&& client.neighbors.no_duplicates()
        },
{
}

/// A topology with a client that has no neighbor, more than two, or one that
/// is no drone, does not pass.
pub proof fn lemma_malformed_client_rejected(t: Topology, i: int)
    requires
        0 <= i < t.clients.len(),
        t.clients[i].neighbors.len() == 0 || t.clients[i].neighbors.len() > 2 || exists|k: int|
            0 <= k < t.clients[i].neighbors.len() && !t.drone_ids().contains(
                #[trigger] t.clients[i].neighbors[k],
            ),
    ensures
        !t.valid(),
{
    assert(!client_ok(t.clients[i], t.drone_ids()));
}

/// What the rule for one server asks: at least two neighbors, each of them a
/// drone, none listed twice, and the server itself not among them.
pub proof fn lemma_server_rule(server: NodeView, drone_ids: Seq<u8>)
    ensures
        server_ok(server, drone_ids) <==> {
            &&& server.neighbors.len() >= 2
            &&& forall|k: int|
                0 <= k < server.neighbors.len() ==> drone_ids.contains(
                    #[trigger] server.neighbors[k],
                )
            &&& !server.neighbors.contains(server.id)
            &&& server.neighbors.no_duplicates()
        },
{
}

/// A topology with a server that has fewer than two neighbors, or one that
/// is no drone, does not pass.
pub proof fn lemma_malformed_server_rejected(t: Topology, i: int)
    requires
        0 <= i < t.servers.len(),
        t.servers[i].neighbors.len() < 2 || exists|k: int|
            0 <= k < t.servers[i].neighbors.len() && !t.drone_ids().contains(
                #[trigger] t.servers[i].neighbors[k],
            ),
    ensures
        !t.valid(),
{
    assert(!server_ok(t.servers[i], t.drone_ids()));
}

/// In a topology that passes, every declared edge has its reverse declared
/// too. So a topology with an edge in one direction only does not pass.
pub proof fn lemma_valid_is_symmetric(t: Topology, a: u8, b: u8)
    requires
        t.edges().contains((a, b)),
    ensures
        t.valid() ==> t.edges().contains((b, a)),
        !t.edges().contains((b, a)) ==> !t.valid(),
{
}

/// In a topology that passes, every node can be reached from every other
/// one by declared edges.
pub proof fn lemma_valid_is_connected(t: Topology, a: u8, b: u8)
    requires
        t.valid(),
        t.ids().contains(a),
        t.ids().contains(b),
    ensures
        joined(t.ids().to_set(), t.edges(), a, b),
{
    assert(t.ids().to_set().contains(a));
    assert(t.ids().to_set().contains(b));
}

/// Where every declared edge has its reverse and every node can be reached
/// from every other one by declared edges, the rule on symmetry and
/// connectivity is met.
pub proof fn lemma_reachable_everywhere_passes(t: Topology)
    requires
        symmetric(t.edges()),
        forall|a: u8, b: u8|
            t.ids().contains(a) && t.ids().contains(b) ==> joined(
                t.ids().to_set(),
                t.edges(),
                a,
                b,
            ),
    ensures
        t.bidirectional_and_connected(),
{
    assert forall|a: u8, b: u8|
        t.ids().to_set().contains(a) && t.ids().to_set().contains(b) implies #[trigger] joined(
        t.ids().to_set(),
        t.edges(),
        a,
        b,
    ) by {
        assert(t.ids().contains(a) && t.ids().contains(b));
    }
}

/// A topology of two or more nodes in which some node has no neighbors does
/// not pass: either another node still lists it, and that edge lacks its
/// reverse, or none does, and the node cannot be reached.
///
/// `i` and `j` are positions in [`Topology::nodes`]: the node without
/// neighbors, and any node with another id.
pub proof fn lemma_isolated_node_rejected(t: Topology, i: int, j: int)
    requires
        0 <= i < t.nodes().len(),
        0 <= j < t.nodes().len(),
        t.nodes()[i].neighbors.len() == 0,
        t.nodes()[j].id != t.nodes()[i].id,
    ensures
        !t.valid(),
{
    if t.valid() {
        lemma_ids_of_nodes(t);
        let nodes = t.nodes();
        let ids = t.ids();
        let x = nodes[i].id;
        let y = nodes[j].id;
        assert(ids[i] == x);
        assert(ids[j] == y);
        assert(ids.to_set().contains(x));
        assert(ids.to_set().contains(y));
        assert(joined(ids.to_set(), t.edges(), x, y));
        let path = choose|path: Seq<u8>| #[trigger]
            is_walk(ids.to_set(), t.edges(), path) && path.first() == x && path.last() == y;
        assert(path.len() >= 2);
        assert(linked(t.edges(), path[0int], path[0int + 1]));
        let z = path[1];
        assert(t.edges().contains((x, z)));
        let k = choose|k: int|
            0 <= k < nodes.len() && (#[trigger] nodes[k]).id == x && nodes[k].neighbors.contains(
                z,
            );
        assert(ids[k] == ids[i]);
        assert(k == i);
    }
}

/// A topology in which two drones are joined only by way of a client or a
/// server (no walk over edges between drones leads from one to the other)
/// does not pass.
pub proof fn lemma_edge_node_between_drones_rejected(t: Topology, a: u8, b: u8)
    requires
        t.drone_ids().contains(a),
        t.drone_ids().contains(b),
        !joined(t.drone_ids().to_set(), t.drone_edges(), a, b),
    ensures
        !t.valid(),
{
    assert(t.drone_ids().to_set().contains(a));
    assert(t.drone_ids().to_set().contains(b));
}

/// In a topology that passes, every listed neighbor is a node. So each node
/// can be started as soon as there is a factory for its role.
pub proof fn lemma_valid_is_ready(t: Topology, registry: RegistryView)
    requires
        t.valid(),
        forall|i: int| 0 <= i < t.len() ==> t.registered_for(registry, i) > 0,
    ensures
        t.ready(registry),
{
    lemma_ids_of_nodes(t);
    let nodes = t.nodes();
    let ids = t.ids();
    assert forall|i: int| 0 <= i < t.len() implies t.ready_at(registry, i) by {
        assert forall|k: int| 0 <= k < nodes[i].neighbors.len() implies ids.contains(
            #[trigger] nodes[i].neighbors[k],
        ) by {
            let n = nodes[i].neighbors[k];
            assert(nodes[i].neighbors.contains(n));
            assert(t.edges().contains((nodes[i].id, n)));
            assert(t.edges().contains((n, nodes[i].id)));
            let j = choose|j: int|
                0 <= j < nodes.len() && (#[trigger] nodes[j]).id == n
                    && nodes[j].neighbors.contains(nodes[i].id);
            assert(ids[j] == n);
        }
    }
}

/// The launch holds a sending handle to `neighbor` into the channel at
/// position `channel`.
pub open spec fn has_link(launch: LaunchView, neighbor: u8, channel: int) -> bool {
    exists|k: int|
        0 <= k < launch.outbound.len() && #[trigger] launch.outbound[k] == (Link {
            neighbor,
            channel: channel as usize,
        })
}

/// The plan of a topology that passes has one launch for each node, each
/// reading from its own channel, and serves every declared edge in both
/// directions: where `a` lists `b`, the launch of `a` holds a handle into the
/// channel that `b` reads from, and the launch of `b` one into the channel
/// that `a` reads from.
pub proof fn lemma_plan_links_both_ways(
    t: Topology,
    registry: RegistryView,
    plan: Seq<LaunchView>,
    a: u8,
    b: u8,
)
    requires
        t.valid(),
        t.planned(registry, plan),
        t.edges().contains((a, b)),
    ensures
        plan.len() == t.len(),
        exists|i: int, j: int|
            {
                &&& 0 <= i < plan.len()
                &&& 0 <= j < plan.len()
                &&& (#[trigger] plan[i]).id == a
                &&& (#[trigger] plan[j]).id == b
                &&& plan[i].inbound == i
                &&& plan[j].inbound == j
                &&& has_link(plan[i], b, j)
                &&& has_link(plan[j], a, i)
            },
{
    lemma_ids_of_nodes(t);
    let nodes = t.nodes();
    let ids = t.ids();
    assert(t.edges().contains((b, a)));
    let i = choose|i: int|
        0 <= i < nodes.len() && (#[trigger] nodes[i]).id == a && nodes[i].neighbors.contains(b);
    let j = choose|j: int|
        0 <= j < nodes.len() && (#[trigger] nodes[j]).id == b && nodes[j].neighbors.contains(a);
    assert(ids[i] == a);
    assert(ids[j] == b);
    assert(t.launch_at(registry, i, plan[i]));
    assert(t.launch_at(registry, j, plan[j]));
    let k = choose|k: int| 0 <= k < nodes[i].neighbors.len() && nodes[i].neighbors[k] == b;
    let to_b = plan[i].outbound[k];
    assert(to_b.neighbor == b);
    assert(ids[to_b.channel as int] == ids[j]);
    assert(to_b.channel as int == j);
    assert(to_b == Link { neighbor: b, channel: j as usize });
    let m = choose|m: int| 0 <= m < nodes[j].neighbors.len() && nodes[j].neighbors[m] == a;
    let to_a = plan[j].outbound[m];
    assert(to_a.neighbor == a);
    assert(ids[to_a.channel as int] == ids[i]);
    assert(to_a.channel as int == i);
    assert(to_a == Link { neighbor: a, channel: i as usize });
    assert(has_link(plan[i], b, j));
    assert(has_link(plan[j], a, i));
}

} // verus!
