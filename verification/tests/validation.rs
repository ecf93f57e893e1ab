use network_initializer::config::{Client, Drone, Server};
use network_initializer::rules::Violation;
use network_initializer::topology_utils::{
    check_bidirectional, check_bidirectional_and_connected, check_client_connections,
    check_connected_only_drones, check_connection, check_id_repetitions, check_server_connections,
    check_subset, check_topology_constraints, first_violation, ids_of_clients, ids_of_drones,
    ids_of_servers,
};
use petgraph::graphmap::DiGraphMap;

fn drone(id: u8, connected_node_ids: Vec<u8>) -> Drone {
    Drone {
        id,
        connected_node_ids,
        pdr: 0.0f32.to_bits(),
    }
}

fn client(id: u8, connected_drone_ids: Vec<u8>) -> Client {
    Client {
        id,
        connected_drone_ids,
    }
}

fn server(id: u8, connected_drone_ids: Vec<u8>) -> Server {
    Server {
        id,
        connected_drone_ids,
    }
}

/// Four drones in a ring, a client on drone 0, a server on drones 2 and 3.
fn ring() -> (Vec<Drone>, Vec<Client>, Vec<Server>) {
    (
        vec![
            drone(0, vec![1, 3, 11]),
            drone(1, vec![0, 2]),
            drone(2, vec![1, 3, 12]),
            drone(3, vec![0, 2, 12]),
        ],
        vec![client(11, vec![0])],
        vec![server(12, vec![2, 3])],
    )
}

#[test]
fn ring_with_client_and_server_is_valid() {
    let (drones, clients, servers) = ring();
    assert!(check_topology_constraints(&drones, &clients, &servers));
    assert_eq!(first_violation(&drones, &clients, &servers), None);
}

#[test]
fn ring_broken_in_one_direction_is_rejected() {
    let (mut drones, clients, servers) = ring();
    // drone 1 no longer lists drone 2, everything else stays
    drones[1].connected_node_ids = vec![0];
    assert!(!check_topology_constraints(&drones, &clients, &servers));
    assert_eq!(
        first_violation(&drones, &clients, &servers),
        Some(Violation::NotBidirectionalOrConnected)
    );
}

#[test]
fn ring_broken_in_both_directions_is_still_connected() {
    let (mut drones, clients, servers) = ring();
    drones[1].connected_node_ids = vec![0];
    drones[2].connected_node_ids = vec![3, 12];
    // 1 - 0 - 3 - 2 is a chain now
    assert!(check_topology_constraints(&drones, &clients, &servers));
}

#[test]
fn client_with_three_neighbors_is_rejected() {
    let (mut drones, mut clients, servers) = ring();
    clients[0].connected_drone_ids = vec![0, 1, 2];
    drones[1].connected_node_ids.push(11);
    drones[2].connected_node_ids.push(11);
    assert!(!check_topology_constraints(&drones, &clients, &servers));
    assert_eq!(
        first_violation(&drones, &clients, &servers),
        Some(Violation::ClientConnections)
    );
}

#[test]
fn client_with_second_neighbor_that_does_not_answer_is_rejected() {
    let (drones, mut clients, servers) = ring();
    clients[0].connected_drone_ids = vec![0, 2];
    assert_eq!(
        first_violation(&drones, &clients, &servers),
        Some(Violation::NotBidirectionalOrConnected)
    );
}

#[test]
fn each_rule_is_reported() {
    let (drones, clients, servers) = ring();

    let mut d = drones.clone();
    d[3].id = 11;
    assert_eq!(
        first_violation(&d, &clients, &servers),
        Some(Violation::RepeatedId)
    );

    let mut d = drones.clone();
    d[1].pdr = 1.5f32.to_bits();
    assert_eq!(
        first_violation(&d, &clients, &servers),
        Some(Violation::PdrOutOfRange)
    );

    let mut d = drones.clone();
    d[1].connected_node_ids = vec![0, 2, 1];
    assert_eq!(
        first_violation(&d, &clients, &servers),
        Some(Violation::DroneConnections)
    );

    let mut c = clients.clone();
    c[0].connected_drone_ids = vec![];
    assert_eq!(
        first_violation(&drones, &c, &servers),
        Some(Violation::ClientConnections)
    );

    let mut s = servers.clone();
    s[0].connected_drone_ids = vec![2];
    assert_eq!(
        first_violation(&drones, &clients, &s),
        Some(Violation::ServerConnections)
    );

    let mut d = drones.clone();
    d[0].connected_node_ids = vec![1, 3];
    assert_eq!(
        first_violation(&d, &clients, &servers),
        Some(Violation::NotBidirectionalOrConnected)
    );
}

#[test]
fn earlier_rule_wins() {
    let (mut drones, mut clients, servers) = ring();
    drones[2].pdr = f32::NAN.to_bits();
    clients[0].connected_drone_ids = vec![];
    assert_eq!(
        first_violation(&drones, &clients, &servers),
        Some(Violation::PdrOutOfRange)
    );
    drones[0].id = 1;
    assert_eq!(
        first_violation(&drones, &clients, &servers),
        Some(Violation::RepeatedId)
    );
}

#[test]
fn reasons() {
    assert_eq!(Violation::RepeatedId.reason(), "id collision");
    assert_eq!(Violation::PdrOutOfRange.reason(), "probability range");
    assert_eq!(Violation::DroneConnections.reason(), "drone connections");
    assert_eq!(Violation::ClientConnections.reason(), "client connections");
    assert_eq!(Violation::ServerConnections.reason(), "server connections");
    assert_eq!(
        Violation::NotBidirectionalOrConnected.reason(),
        "symmetry or connectivity"
    );
    assert_eq!(Violation::EdgeNodeNotLeaf.reason(), "edge node placement");
}

#[test]
fn bad_pdr_gives_probability_range() {
    let (mut drones, clients, servers) = ring();
    for bad in [f32::NAN, -0.5, 1.0001, f32::INFINITY, f32::NEG_INFINITY] {
        drones[2].pdr = bad.to_bits();
        assert!(!check_topology_constraints(&drones, &clients, &servers));
        let why = first_violation(&drones, &clients, &servers);
        assert_eq!(why, Some(Violation::PdrOutOfRange));
        assert_eq!(why.unwrap().reason(), "probability range");
    }
}

#[test]
fn order_of_listing_does_not_matter() {
    let (drones, clients, servers) = ring();
    let mut reversed = drones.clone();
    reversed.reverse();
    assert!(check_topology_constraints(&reversed, &clients, &servers));
    let rotated = vec![
        drones[2].clone(),
        drones[0].clone(),
        drones[3].clone(),
        drones[1].clone(),
    ];
    assert!(check_topology_constraints(&rotated, &clients, &servers));

    let mut broken = rotated.clone();
    broken[3].connected_node_ids = vec![0];
    let mut broken_reversed = broken.clone();
    broken_reversed.reverse();
    assert_eq!(
        first_violation(&broken, &clients, &servers),
        first_violation(&broken_reversed, &clients, &servers)
    );
    assert_eq!(
        first_violation(&broken, &clients, &servers),
        Some(Violation::NotBidirectionalOrConnected)
    );
}

#[test]
fn isolated_node_is_rejected() {
    // a drone that nobody lists and that lists nobody
    let (mut drones, clients, servers) = ring();
    drones.push(drone(4, vec![]));
    assert!(!check_bidirectional_and_connected(&drones, &clients, &servers));
    assert_eq!(
        first_violation(&drones, &clients, &servers),
        Some(Violation::NotBidirectionalOrConnected)
    );

    // a drone that the others still list
    let (mut drones, clients, servers) = ring();
    drones[1].connected_node_ids = vec![];
    assert!(!check_topology_constraints(&drones, &clients, &servers));
}

#[test]
fn single_drone_and_empty_topology_pass() {
    assert!(check_topology_constraints(&[], &[], &[]));
    assert!(check_topology_constraints(&[drone(7, vec![])], &[], &[]));
    assert!(!check_topology_constraints(
        &[drone(7, vec![]), drone(8, vec![])],
        &[],
        &[]
    ));
}

#[test]
fn two_separate_components_are_rejected() {
    let drones = vec![
        drone(0, vec![1]),
        drone(1, vec![0]),
        drone(2, vec![3]),
        drone(3, vec![2]),
    ];
    assert!(!check_bidirectional_and_connected(&drones, &[], &[]));
    assert!(!check_connected_only_drones(&drones, &[0, 1, 2, 3]));
    assert_eq!(
        first_violation(&drones, &[], &[]),
        Some(Violation::NotBidirectionalOrConnected)
    );
}

#[test]
fn edge_node_between_drones_is_rejected() {
    // drones 0-1 and 2-3 are joined only through client 11 and server 12
    let drones = vec![
        drone(0, vec![1, 12]),
        drone(1, vec![0, 11]),
        drone(2, vec![3, 11]),
        drone(3, vec![2, 12]),
    ];
    let clients = vec![client(11, vec![1, 2])];
    let servers = vec![server(12, vec![0, 3])];
    assert!(check_bidirectional_and_connected(&drones, &clients, &servers));
    assert!(!check_connected_only_drones(&drones, &ids_of_drones(&drones)));
    assert!(!check_topology_constraints(&drones, &clients, &servers));
    assert_eq!(
        first_violation(&drones, &clients, &servers),
        Some(Violation::EdgeNodeNotLeaf)
    );
}

#[test]
fn symmetric_edges_given_in_another_order() {
    // node 1: outgoing 2, 3; incoming 3, 2
    let g = DiGraphMap::from_edges([(1, 2, 1), (1, 3, 1), (3, 1, 1), (2, 1, 1)]);
    assert!(check_bidirectional(&g));
    // same degrees in and out at every node, but no edge has its reverse
    let cycle = DiGraphMap::from_edges([(1, 2, 1), (2, 3, 1), (3, 1, 1)]);
    assert!(!check_bidirectional(&cycle));
    let empty: DiGraphMap<u8, u8> = DiGraphMap::new();
    assert!(check_bidirectional(&empty));
    let looped = DiGraphMap::from_edges([(5, 5, 1)]);
    assert!(check_bidirectional(&looped));
}

#[test]
fn connection_and_subset() {
    assert!(check_connection(1, &[0, 2]));
    assert!(check_connection(1, &[]));
    assert!(!check_connection(1, &[0, 1]));
    assert!(!check_connection(1, &[0, 2, 0]));
    assert!(check_subset(&[0, 2], &[0, 1, 2, 3]));
    assert!(check_subset(&[], &[]));
    assert!(!check_subset(&[0, 4], &[0, 1, 2, 3]));
}

#[test]
fn id_repetitions_across_roles() {
    assert!(check_id_repetitions(&[], &[], &[]));
    assert!(check_id_repetitions(&[1, 2], &[3], &[4]));
    assert!(!check_id_repetitions(&[1, 2], &[3], &[3]));
    assert!(!check_id_repetitions(&[1, 2], &[2], &[4]));
    assert!(!check_id_repetitions(&[1], &[3], &[1]));
    assert!(!check_id_repetitions(&[], &[3, 3], &[]));
}

#[test]
fn client_and_server_degrees() {
    let ids = [0u8, 1, 2, 3];
    assert!(check_client_connections(&[client(9, vec![0])], &ids));
    assert!(check_client_connections(&[client(9, vec![0, 3])], &ids));
    assert!(!check_client_connections(&[client(9, vec![])], &ids));
    assert!(!check_client_connections(&[client(9, vec![0, 1, 2])], &ids));
    assert!(!check_client_connections(&[client(9, vec![0, 0])], &ids));
    assert!(!check_client_connections(&[client(9, vec![9])], &[9]));
    assert!(check_client_connections(&[], &ids));

    assert!(check_server_connections(&[server(9, vec![0, 1])], &ids));
    assert!(check_server_connections(&[server(9, vec![0, 1, 2, 3])], &ids));
    assert!(!check_server_connections(&[server(9, vec![0])], &ids));
    assert!(!check_server_connections(&[server(9, vec![0, 7])], &ids));
    assert!(!check_server_connections(&[server(9, vec![1, 1])], &ids));
    assert!(check_server_connections(&[], &ids));
}

#[test]
fn ids_in_order() {
    let (drones, clients, servers) = ring();
    assert_eq!(ids_of_drones(&drones), vec![0, 1, 2, 3]);
    assert_eq!(ids_of_clients(&clients), vec![11]);
    assert_eq!(ids_of_servers(&servers), vec![12]);
}

#[test]
fn drones_alone_with_edges_to_strangers() {
    let drones = vec![drone(0, vec![1, 200]), drone(1, vec![0, 201])];
    // edges to ids that are no drones do not count
    assert!(check_connected_only_drones(&drones, &[0, 1]));
    // but they do in the whole graph, where they lack their reverse
    assert!(!check_bidirectional_and_connected(&drones, &[], &[]));
}
