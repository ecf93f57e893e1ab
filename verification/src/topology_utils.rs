//! The checks that decide whether a declared topology may be started.

use crate::config::{
    client_views, drone_ids, drone_nodes, drone_views, edges_into, edges_of, lemma_edges_of_push,
    lemma_ids_of_nodes, links, node_ids, node_views, server_views, topology_of, Client, Drone,
    Node, NodeView, Server,
};
use crate::graph::{
    add_edge, add_node, connected_components, graph_edges, graph_nodes,
    lemma_connected_iff_one_component, new_graph, node_list, sources_into, symmetric,
    symmetric_at, targets, targets_from,
};
use crate::idlist::{
    all_unique, contains_id, lemma_ascending_unique, lemma_same_members_same_multiset, same_ids,
    sorted,
};
use crate::pdr::{is_probability, pdr_in_range};
use crate::rules::{
    bidirectional_and_connected, client_ok, clients_ok, connection_ok, drones_ok, pdrs_ok,
    server_ok, servers_ok, subset_ok, Violation,
};
use petgraph::graphmap::DiGraphMap;
use vstd::prelude::*;
use vstd::slice::slice_to_vec;

verus! {

/// Checks that every drop rate is a probability.
pub fn check_pdr(drones: &[Drone]) -> (r: bool)
    ensures
        r == pdrs_ok(drone_views(drones@)),
{
    let mut i: usize = 0;
    while i < drones.len()
        invariant
            0 <= i <= drones.len(),
            forall|k: int|
                0 <= k < i ==> is_probability((#[trigger] drone_views(drones@)[k]).pdr),
        decreases drones.len() - i,
    {
        assert(drone_views(drones@)[i as int] == drones@[i as int]@);
        if !pdr_in_range(drones[i].pdr) {
            return false;
        }
        i += 1;
    }
    true
}

/// Checks that a node is not on its own neighbor list and that the list
/// names no node twice.
pub fn check_connection(id: u8, connected: &[u8]) -> (r: bool)
    ensures
        r == connection_ok(id, connected@),
{
    !contains_id(connected, id) && all_unique(connected)
}

/// Checks that every listed neighbor is one of `drones_ids`.
pub fn check_subset(connected: &[u8], drones_ids: &[u8]) -> (r: bool)
    ensures
        r == subset_ok(connected@, drones_ids@),
{
    let mut i: usize = 0;
    while i < connected.len()
        invariant
            0 <= i <= connected.len(),
            forall|k: int| 0 <= k < i ==> drones_ids@.contains(#[trigger] connected@[k]),
        decreases connected.len() - i,
    {
        if !contains_id(drones_ids, connected[i]) {
            return false;
        }
        i += 1;
    }
    true
}

/// Checks that no id is used twice, over the drones, the clients and the
/// servers together.
pub fn check_id_repetitions(drones_id: &[u8], clients_id: &[u8], servers_id: &[u8]) -> (r: bool)
    ensures
        r == (drones_id@ + clients_id@ + servers_id@).no_duplicates(),
{
    let mut all: Vec<u8> = Vec::new();
    all.extend_from_slice(drones_id);
    all.extend_from_slice(clients_id);
    all.extend_from_slice(servers_id);
    assert(all@ =~= drones_id@ + clients_id@ + servers_id@);
    all_unique(all.as_slice())
}

/// Checks that every drone's neighbor list is well formed.
pub fn check_drone_connections(drones: &[Drone]) -> (r: bool)
    ensures
        r == drones_ok(drone_views(drones@)),
{
    let mut i: usize = 0;
    while i < drones.len()
        invariant
            0 <= i <= drones.len(),
            forall|k: int|
                0 <= k < i ==> connection_ok(
                    (#[trigger] drone_views(drones@)[k]).id,
                    drone_views(drones@)[k].neighbors,
                ),
        decreases drones.len() - i,
    {
        if !check_connection(drones[i].id, drones[i].connected_node_ids.as_slice()) {
            assert(drone_views(drones@)[i as int] == drones@[i as int]@);
            return false;
        }
        assert(drone_views(drones@)[i as int] == drones@[i as int]@);
        i += 1;
    }
    true
}

/// Checks that every client is linked to one or two drones, and to nothing
/// else, in a well formed list.
pub fn check_client_connections(clients: &[Client], drones_ids: &[u8]) -> (r: bool)
    ensures
        r == clients_ok(client_views(clients@), drones_ids@),
{
    let mut i: usize = 0;
    while i < clients.len()
        invariant
            0 <= i <= clients.len(),
            forall|k: int|
                0 <= k < i ==> client_ok(#[trigger] client_views(clients@)[k], drones_ids@),
        decreases clients.len() - i,
    {
        let client = &clients[i];
        assert(client_views(clients@)[i as int] == client@);
        let fan_out = client.connected_drone_ids.len();
        if !(1 <= fan_out && fan_out < 3 && check_subset(
            client.connected_drone_ids.as_slice(),
            drones_ids,
        ) && check_connection(client.id, client.connected_drone_ids.as_slice())) {
            return false;
        }
        i += 1;
    }
    true
}

/// Checks that every server is linked to at least two drones, and to nothing
/// else, in a well formed list.
pub fn check_server_connections(servers: &[Server], drones_ids: &[u8]) -> (r: bool)
    ensures
        r == servers_ok(server_views(servers@), drones_ids@),
{
    let mut i: usize = 0;
    while i < servers.len()
        invariant
            0 <= i <= servers.len(),
            forall|k: int|
                0 <= k < i ==> server_ok(#[trigger] server_views(servers@)[k], drones_ids@),
        decreases servers.len() - i,
    {
        let server = &servers[i];
        assert(server_views(servers@)[i as int] == server@);
        if !(server.connected_drone_ids.len() > 1 && check_subset(
            server.connected_drone_ids.as_slice(),
            drones_ids,
        ) && check_connection(server.id, server.connected_drone_ids.as_slice())) {
            return false;
        }
        i += 1;
    }
    true
}

/// Checks that every edge of the graph has its reverse.
///
/// For every node, the sources of its incoming edges and the targets of its
/// outgoing edges are compared as sorted lists.
pub fn check_bidirectional(graph: &DiGraphMap<u8, u8>) -> (r: bool)
    ensures
        r == symmetric(graph_edges(*graph)),
{
    let ghost edges = graph_edges(*graph);
    let nodes = node_list(graph);
    let mut i: usize = 0;
    while i < nodes.len()
        invariant
            0 <= i <= nodes.len(),
            edges == graph_edges(*graph),
            forall|k: int| 0 <= k < i ==> symmetric_at(edges, #[trigger] nodes@[k]),
        decreases nodes.len() - i,
    {
        let node = nodes[i];
        let incoming = sources_into(graph, node);
        let outgoing = targets_from(graph, node);
        let ghost ins = incoming@;
        let ghost outs = outgoing@;
        let incoming = sorted(incoming);
        let outgoing = sorted(outgoing);
        if !same_ids(&incoming, &outgoing) {
            proof {
                if symmetric(edges) {
                    assert forall|a: u8| ins.contains(a) <==> outs.contains(a) by {
                        if edges.contains((a, node)) {
                            assert(edges.contains((node, a)));
                        }
                        if edges.contains((node, a)) {
                            assert(edges.contains((a, node)));
                        }
                    }
                    lemma_same_members_same_multiset(ins, outs);
                    lemma_ascending_unique(incoming@, outgoing@);
                }
            }
            return false;
        }
        proof {
            ins.to_multiset_ensures();
            outs.to_multiset_ensures();
            assert(ins.to_multiset() == outs.to_multiset());
            assert forall|a: u8| edges.contains((a, node)) <==> edges.contains((node, a)) by {
                assert(ins.contains(a) <==> ins.to_multiset().count(a) > 0);
                assert(outs.contains(a) <==> outs.to_multiset().count(a) > 0);
            }
        }
        i += 1;
    }
    proof {
        assert forall|a: u8, b: u8| #[trigger] edges.contains((a, b)) implies edges.contains(
            (b, a),
        ) by {
            assert(nodes@.contains(b));
            let k = choose|k: int| 0 <= k < nodes@.len() && nodes@[k] == b;
            assert(symmetric_at(edges, nodes@[k]));
        }
    }
    true
}

/// Adds one node and the edges to its neighbors to the graph.
fn add_links(graph: &mut DiGraphMap<u8, u8>, node: &Node)
    ensures
        graph_edges(*final(graph)) == graph_edges(*old(graph)).union(
            links(node.id, node.neighbors@),
        ),
        graph_nodes(*final(graph)) == graph_nodes(*old(graph)).insert(node.id).union(
            node.neighbors@.to_set(),
        ),
{
    add_node(graph, node.id);
    let ghost nodes0 = graph_nodes(*graph);
    let ghost edges0 = graph_edges(*graph);
    let mut k: usize = 0;
    while k < node.neighbors.len()
        invariant
            0 <= k <= node.neighbors.len(),
            graph_edges(*graph) =~= edges0.union(links(node.id, node.neighbors@.take(k as int))),
            graph_nodes(*graph) =~= nodes0.union(node.neighbors@.take(k as int).to_set()),
            nodes0.contains(node.id),
        decreases node.neighbors.len() - k,
    {
        let ghost before = node.neighbors@.take(k as int);
        let ghost after = node.neighbors@.take(k + 1);
        add_edge(graph, node.id, node.neighbors[k], 1);
        proof {
            assert(after =~= before.push(node.neighbors@[k as int]));
            assert forall|b: u8| after.contains(b) <==> (before.contains(b) || b
                == node.neighbors@[k as int]) by {
                if before.contains(b) {
                    let j = choose|j: int| 0 <= j < before.len() && before[j] == b;
                    assert(after[j] == b);
                }
                if b == node.neighbors@[k as int] {
                    assert(after[k as int] == b);
                }
            }
        }
        k += 1;
    }
    assert(node.neighbors@.take(k as int) =~= node.neighbors@);
}

/// The graph that a list of nodes declares: every node of the list, every
/// edge from a node to one of its neighbors, and what those edges lead to.
fn graph_of(nodes: &Vec<Node>) -> (graph: DiGraphMap<u8, u8>)
    ensures
        graph_edges(graph) == edges_of(node_views(nodes@)),
        graph_nodes(graph) == node_ids(node_views(nodes@)).to_set().union(
            targets(edges_of(node_views(nodes@))),
        ),
{
    let ghost views = node_views(nodes@);
    let mut graph = new_graph();
    let mut i: usize = 0;
    assert(edges_of(views.take(0)) =~= Set::<(u8, u8)>::empty());
    assert(node_ids(views.take(0)).to_set().union(targets(edges_of(views.take(0))))
        =~= Set::<u8>::empty());
    while i < nodes.len()
        invariant
            0 <= i <= nodes.len(),
            views == node_views(nodes@),
            graph_edges(graph) == edges_of(views.take(i as int)),
            graph_nodes(graph) == node_ids(views.take(i as int)).to_set().union(
                targets(edges_of(views.take(i as int))),
            ),
        decreases nodes.len() - i,
    {
        add_links(&mut graph, &nodes[i]);
        proof {
            let done = views.take(i as int);
            let node = views[i as int];
            let next = views.take(i + 1);
            assert(next =~= done.push(node));
            lemma_edges_of_push(done, node);
            assert(node_ids(next) =~= node_ids(done).push(node.id));
            assert forall|n: u8| node_ids(next).contains(n) <==> (node_ids(done).contains(n) || n
                == node.id) by {
                if node_ids(done).contains(n) {
                    let j = choose|j: int| 0 <= j < done.len() && node_ids(done)[j] == n;
                    assert(node_ids(next)[j] == n);
                }
                if n == node.id {
                    assert(node_ids(next)[i as int] == n);
                }
            }
            assert forall|b: u8| targets(edges_of(next)).contains(b) <==> (targets(
                edges_of(done),
            ).contains(b) || node.neighbors.contains(b)) by {
                if node.neighbors.contains(b) {
                    assert(links(node.id, node.neighbors).contains((node.id, b)));
                    assert(edges_of(next).contains((node.id, b)));
                }
                if targets(edges_of(done)).contains(b) {
                    let a = choose|a: u8| edges_of(done).contains((a, b));
                    assert(edges_of(next).contains((a, b)));
                }
                if targets(edges_of(next)).contains(b) {
                    let a = choose|a: u8| edges_of(next).contains((a, b));
                    if !edges_of(done).contains((a, b)) {
                        assert(links(node.id, node.neighbors).contains((a, b)));
                    }
                }
            }
            assert forall|n: u8| graph_nodes(graph).contains(n) <==> (node_ids(
                next,
            ).to_set().contains(n) || targets(edges_of(next)).contains(n)) by {
                assert(node.neighbors.to_set().contains(n) <==> node.neighbors.contains(n));
                assert(node_ids(next).to_set().contains(n) <==> node_ids(next).contains(n));
                assert(node_ids(done).to_set().contains(n) <==> node_ids(done).contains(n));
            }
            assert(graph_nodes(graph) =~= node_ids(next).to_set().union(targets(edges_of(next))));
        }
        i += 1;
    }
    assert(views.take(i as int) =~= views);
    graph
}

/// Checks the graph that a list of nodes declares: every edge has its
/// reverse, and the nodes form a single component.
fn check_graph(nodes: &Vec<Node>) -> (r: bool)
    ensures
        r == bidirectional_and_connected(
            node_ids(node_views(nodes@)),
            edges_of(node_views(nodes@)),
        ),
{
    let graph = graph_of(nodes);
    let components = connected_components(&graph);
    let both_ways = check_bidirectional(&graph);
    proof {
        let views = node_views(nodes@);
        let ids = node_ids(views);
        let edges = edges_of(views);
        if symmetric(edges) {
            assert forall|b: u8| targets(edges).contains(b) implies ids.to_set().contains(b) by {
                let a = choose|a: u8| edges.contains((a, b));
                assert(edges.contains((b, a)));
                let i = choose|i: int|
                    0 <= i < views.len() && (#[trigger] views[i]).id == b
                        && views[i].neighbors.contains(a);
                assert(ids[i] == b);
            }
            assert(graph_nodes(graph) =~= ids.to_set());
            lemma_connected_iff_one_component(ids.to_set(), edges);
        }
    }
    components <= 1 && both_ways
}

/// The ids of the drones, in order.
pub fn ids_of_drones(drones: &[Drone]) -> (r: Vec<u8>)
    ensures
        r@ == drone_ids(drone_views(drones@)),
{
    let mut ids: Vec<u8> = Vec::new();
    let mut i: usize = 0;
    while i < drones.len()
        invariant
            0 <= i <= drones.len(),
            ids@ =~= drone_ids(drone_views(drones@)).take(i as int),
        decreases drones.len() - i,
    {
        ids.push(drones[i].id);
        i += 1;
    }
    assert(ids@ =~= drone_ids(drone_views(drones@)));
    ids
}

/// The ids of the clients, in order.
pub fn ids_of_clients(clients: &[Client]) -> (r: Vec<u8>)
    ensures
        r@ == node_ids(client_views(clients@)),
{
    let mut ids: Vec<u8> = Vec::new();
    let mut i: usize = 0;
    while i < clients.len()
        invariant
            0 <= i <= clients.len(),
            ids@ =~= node_ids(client_views(clients@)).take(i as int),
        decreases clients.len() - i,
    {
        ids.push(clients[i].id);
        i += 1;
    }
    assert(ids@ =~= node_ids(client_views(clients@)));
    ids
}

/// The ids of the servers, in order.
pub fn ids_of_servers(servers: &[Server]) -> (r: Vec<u8>)
    ensures
        r@ == node_ids(server_views(servers@)),
{
    let mut ids: Vec<u8> = Vec::new();
    let mut i: usize = 0;
    while i < servers.len()
        invariant
            0 <= i <= servers.len(),
            ids@ =~= node_ids(server_views(servers@)).take(i as int),
        decreases servers.len() - i,
    {
        ids.push(servers[i].id);
        i += 1;
    }
    assert(ids@ =~= node_ids(server_views(servers@)));
    ids
}

/// Checks the graph of all declared edges: every edge has its reverse, and
/// every node can be reached from every other one.
pub fn check_bidirectional_and_connected(
    drones: &[Drone],
    clients: &[Client],
    servers: &[Server],
) -> (r: bool)
    ensures
        r == topology_of(drones@, clients@, servers@).bidirectional_and_connected(),
{
    let ghost t = topology_of(drones@, clients@, servers@);
    let mut nodes: Vec<Node> = Vec::new();
    let mut i: usize = 0;
    while i < drones.len()
        invariant
            0 <= i <= drones.len(),
            t == topology_of(drones@, clients@, servers@),
            node_views(nodes@) =~= t.drone_nodes().take(i as int),
        decreases drones.len() - i,
    {
        let neighbors = slice_to_vec(drones[i].connected_node_ids.as_slice());
        let node = Node { id: drones[i].id, neighbors };
        assert(node@ == t.drone_nodes()[i as int]);
        let ghost before = nodes@;
        nodes.push(node);
        assert(node_views(nodes@) =~= node_views(before).push(node@));
        i += 1;
    }
    assert(t.drone_nodes().take(i as int) =~= t.drone_nodes());
    let mut i: usize = 0;
    while i < clients.len()
        invariant
            0 <= i <= clients.len(),
            t == topology_of(drones@, clients@, servers@),
            node_views(nodes@) =~= t.drone_nodes() + t.clients.take(i as int),
        decreases clients.len() - i,
    {
        let neighbors = slice_to_vec(clients[i].connected_drone_ids.as_slice());
        let node = Node { id: clients[i].id, neighbors };
        assert(node@ == t.clients[i as int]);
        let ghost before = nodes@;
        nodes.push(node);
        assert(node_views(nodes@) =~= node_views(before).push(node@));
        i += 1;
    }
    assert(t.clients.take(i as int) =~= t.clients);
    let mut i: usize = 0;
    while i < servers.len()
        invariant
            0 <= i <= servers.len(),
            t == topology_of(drones@, clients@, servers@),
            node_views(nodes@) =~= t.drone_nodes() + t.clients + t.servers.take(i as int),
        decreases servers.len() - i,
    {
        let neighbors = slice_to_vec(servers[i].connected_drone_ids.as_slice());
        let node = Node { id: servers[i].id, neighbors };
        assert(node@ == t.servers[i as int]);
        let ghost before = nodes@;
        nodes.push(node);
        assert(node_views(nodes@) =~= node_views(before).push(node@));
        i += 1;
    }
    proof {
        assert(t.servers.take(i as int) =~= t.servers);
        assert(node_views(nodes@) == t.nodes());
        lemma_ids_of_nodes(t);
    }
    check_graph(&nodes)
}

/// `kept` is `full` with only those neighbors that are among `allowed`.
spec fn restricted(kept: NodeView, full: NodeView, allowed: Seq<u8>) -> bool {
    &&& kept.id == full.id
    &&& forall|b: u8|
        #![trigger kept.neighbors.contains(b)]
        #![trigger full.neighbors.contains(b)]
        kept.neighbors.contains(b) <==> full.neighbors.contains(b) && allowed.contains(b)
}

/// The ids of `neighbors` that are among `allowed`, in their order.
fn restrict_to(neighbors: &[u8], allowed: &[u8]) -> (kept: Vec<u8>)
    ensures
        forall|b: u8| kept@.contains(b) <==> neighbors@.contains(b) && allowed@.contains(b),
{
    let mut kept: Vec<u8> = Vec::new();
    let mut k: usize = 0;
    while k < neighbors.len()
        invariant
            0 <= k <= neighbors.len(),
            forall|b: u8|
                kept@.contains(b) <==> neighbors@.take(k as int).contains(b) && allowed@.contains(
                    b,
                ),
        decreases neighbors.len() - k,
    {
        let ghost before = neighbors@.take(k as int);
        let ghost after = neighbors@.take(k + 1);
        let ghost kept_before = kept@;
        let id = neighbors[k];
        if contains_id(allowed, id) {
            kept.push(id);
        }
        proof {
            assert(after =~= before.push(id));
            assert forall|b: u8| kept@.contains(b) <==> after.contains(b) && allowed@.contains(
                b,
            ) by {
                if before.contains(b) {
                    let j = choose|j: int| 0 <= j < before.len() && before[j] == b;
                    assert(after[j] == b);
                }
                if b == id {
                    assert(after[k as int] == b);
                }
                if kept_before.contains(b) {
                    let j = choose|j: int| 0 <= j < kept_before.len() && kept_before[j] == b;
                    assert(kept@[j] == b);
                }
                if b == id && allowed@.contains(id) {
                    assert(kept@[kept@.len() - 1] == b);
                }
            }
        }
        k += 1;
    }
    assert(neighbors@.take(k as int) =~= neighbors@);
    kept
}

/// Checks the graph of the drones alone, with the edges that lead to one of
/// `drones_ids`: every such edge has its reverse, and every drone can be
/// reached from every other one without passing through a client or a server.
pub fn check_connected_only_drones(drones: &[Drone], drones_ids: &[u8]) -> (r: bool)
    ensures
        r == bidirectional_and_connected(
            drone_ids(drone_views(drones@)),
            edges_into(edges_of(drone_nodes(drone_views(drones@))), drones_ids@),
        ),
{
    let ghost all = drone_nodes(drone_views(drones@));
    let mut nodes: Vec<Node> = Vec::new();
    let mut i: usize = 0;
    while i < drones.len()
        invariant
            0 <= i <= drones.len(),
            all == drone_nodes(drone_views(drones@)),
            nodes.len() == i,
            forall|k: int| 0 <= k < i ==> restricted((#[trigger] nodes@[k])@, all[k], drones_ids@),
        decreases drones.len() - i,
    {
        let neighbors = restrict_to(drones[i].connected_node_ids.as_slice(), drones_ids);
        let node = Node { id: drones[i].id, neighbors };
        assert(all[i as int] == drones@[i as int]@.node());
        let ghost before = nodes@;
        nodes.push(node);
        assert(restricted(node@, all[i as int], drones_ids@));
        assert forall|k: int| 0 <= k < i + 1 implies restricted(
            (#[trigger] nodes@[k])@,
            all[k],
            drones_ids@,
        ) by {
            if k < i {
                assert(nodes@[k] == before[k]);
            }
        }
        i += 1;
    }
    proof {
        let views = node_views(nodes@);
        let within = edges_into(edges_of(all), drones_ids@);
        assert(node_ids(views) =~= drone_ids(drone_views(drones@)));
        assert forall|e: (u8, u8)| edges_of(views).contains(e) <==> within.contains(e) by {
            if edges_of(views).contains(e) {
                let k = choose|k: int|
                    0 <= k < views.len() && (#[trigger] views[k]).id == e.0
                        && views[k].neighbors.contains(e.1);
                assert(views[k] == nodes@[k]@);
                assert(restricted(nodes@[k]@, all[k], drones_ids@));
                assert(all[k].id == e.0 && all[k].neighbors.contains(e.1));
            }
            if within.contains(e) {
                let k = choose|k: int|
                    0 <= k < all.len() && (#[trigger] all[k]).id == e.0
                        && all[k].neighbors.contains(e.1);
                assert(restricted(nodes@[k]@, all[k], drones_ids@));
                assert(views[k] == nodes@[k]@);
                assert(views[k].id == e.0 && views[k].neighbors.contains(e.1));
            }
        }
        assert(edges_of(views) =~= within);
    }
    check_graph(&nodes)
}

/// Finds the first rule that the declared topology breaks, if it breaks one.
///
/// The rules are tried in this order: unique ids, drop rates, the neighbor
/// lists of the drones, of the clients and of the servers, symmetry and
/// connectivity of the whole graph, and connectivity of the drones alone.
pub fn first_violation(drones: &[Drone], clients: &[Client], servers: &[Server]) -> (r: Option<
    Violation,
>)
    ensures
        r == topology_of(drones@, clients@, servers@).first_violation(),
{
    let drones_id = ids_of_drones(drones);
    let clients_id = ids_of_clients(clients);
    let servers_id = ids_of_servers(servers);
    if !check_id_repetitions(drones_id.as_slice(), clients_id.as_slice(), servers_id.as_slice()) {
        Some(Violation::RepeatedId)
    } else if !check_pdr(drones) {
        Some(Violation::PdrOutOfRange)
    } else if !check_drone_connections(drones) {
        Some(Violation::DroneConnections)
    } else if !check_client_connections(clients, drones_id.as_slice()) {
        Some(Violation::ClientConnections)
    } else if !check_server_connections(servers, drones_id.as_slice()) {
        Some(Violation::ServerConnections)
    } else if !check_bidirectional_and_connected(drones, clients, servers) {
        Some(Violation::NotBidirectionalOrConnected)
    } else if !check_connected_only_drones(drones, drones_id.as_slice()) {
        Some(Violation::EdgeNodeNotLeaf)
    } else {
        None
    }
}

/// Checks that the topology respects all the necessary constraints.
pub fn check_topology_constraints(drones: &[Drone], clients: &[Client], servers: &[Server]) -> (r:
    bool)
    ensures
        r == topology_of(drones@, clients@, servers@).valid(),
{
    first_violation(drones, clients, servers).is_none()
}

} // verus!
