use network_initializer::bootstrap::{
    bootstrap_plan, channel_of, links_to, select_factory, BootstrapError, ClientKind,
    FactoryRegistry, Link, Role,
};
use network_initializer::channels::{create_channels, create_scl_channels};
use network_initializer::config::{Client, Drone, Server};
use network_initializer::topology_utils::check_topology_constraints;

fn ring() -> (Vec<Drone>, Vec<Client>, Vec<Server>) {
    let drone = |id: u8, connected_node_ids: Vec<u8>, pdr: f32| Drone {
        id,
        connected_node_ids,
        pdr: pdr.to_bits(),
    };
    (
        vec![
            drone(0, vec![1, 3, 11], 0.0),
            drone(1, vec![0, 2], 0.8),
            drone(2, vec![1, 3, 12], 1.0),
            drone(3, vec![0, 2, 12], 0.4),
        ],
        vec![Client {
            id: 11,
            connected_drone_ids: vec![0],
        }],
        vec![Server {
            id: 12,
            connected_drone_ids: vec![2, 3],
        }],
    )
}

fn registry() -> FactoryRegistry {
    FactoryRegistry {
        drones: 10,
        clients: vec![ClientKind::Web, ClientKind::Chat],
        servers: 3,
    }
}

#[test]
fn factory_by_remainder() {
    assert_eq!(select_factory(0, 10), 0);
    assert_eq!(select_factory(7, 10), 7);
    assert_eq!(select_factory(10, 10), 0);
    assert_eq!(select_factory(255, 10), 5);
    assert_eq!(select_factory(12, 3), 0);
    assert_eq!(select_factory(11, 2), 1);
    assert_eq!(select_factory(200, 1), 0);
    assert_eq!(select_factory(3, 1000), 3);
}

#[test]
fn channel_is_first_position() {
    assert_eq!(channel_of(&[4, 5, 6], 4), Some(0));
    assert_eq!(channel_of(&[4, 5, 6], 6), Some(2));
    assert_eq!(channel_of(&[4, 5, 6, 5], 5), Some(1));
    assert_eq!(channel_of(&[4, 5, 6], 7), None);
    assert_eq!(channel_of(&[], 7), None);
}

#[test]
fn links_in_order_of_the_list() {
    assert_eq!(
        links_to(&[0, 1, 2, 3, 11, 12], &[3, 12, 0]),
        Ok(vec![
            Link {
                neighbor: 3,
                channel: 3
            },
            Link {
                neighbor: 12,
                channel: 5
            },
            Link {
                neighbor: 0,
                channel: 0
            },
        ])
    );
    assert_eq!(links_to(&[0, 1], &[]), Ok(vec![]));
    assert_eq!(links_to(&[0, 1, 2], &[1, 9, 8]), Err(9));
}

#[test]
fn plan_of_the_ring() {
    let (drones, clients, servers) = ring();
    assert!(check_topology_constraints(&drones, &clients, &servers));
    let plan = bootstrap_plan(&drones, &clients, &servers, &registry()).unwrap();
    assert_eq!(plan.len(), 6);
    let ids: Vec<u8> = plan.iter().map(|l| l.id).collect();
    assert_eq!(ids, vec![0, 1, 2, 3, 11, 12]);
    for (position, launch) in plan.iter().enumerate() {
        assert_eq!(launch.inbound, position);
    }
    assert_eq!(
        plan[0].role,
        Role::Drone {
            factory: 0,
            pdr: 0.0f32.to_bits()
        }
    );
    assert_eq!(
        plan[3].role,
        Role::Drone {
            factory: 3,
            pdr: 0.4f32.to_bits()
        }
    );
    assert_eq!(
        plan[4].role,
        Role::Client {
            factory: 1,
            kind: ClientKind::Chat
        }
    );
    assert_eq!(plan[5].role, Role::Server { factory: 0 });
    assert_eq!(
        plan[0].outbound,
        vec![
            Link {
                neighbor: 1,
                channel: 1
            },
            Link {
                neighbor: 3,
                channel: 3
            },
            Link {
                neighbor: 11,
                channel: 4
            },
        ]
    );
    assert_eq!(
        plan[4].outbound,
        vec![Link {
            neighbor: 0,
            channel: 0
        }]
    );
    assert_eq!(
        plan[5].outbound,
        vec![
            Link {
                neighbor: 2,
                channel: 2
            },
            Link {
                neighbor: 3,
                channel: 3
            },
        ]
    );
}

#[test]
fn plan_is_the_same_each_time() {
    let (drones, clients, servers) = ring();
    let first = bootstrap_plan(&drones, &clients, &servers, &registry()).unwrap();
    let second = bootstrap_plan(&drones, &clients, &servers, &registry()).unwrap();
    assert_eq!(first.len(), second.len());
    for (a, b) in first.iter().zip(second.iter()) {
        assert_eq!(a.id, b.id);
        assert_eq!(a.role, b.role);
        assert_eq!(a.inbound, b.inbound);
        assert_eq!(a.outbound, b.outbound);
    }
}

#[test]
fn client_kind_follows_the_registry() {
    let drones = vec![
        Drone {
            id: 0,
            connected_node_ids: vec![10, 11],
            pdr: 0,
        },
    ];
    let clients = vec![
        Client {
            id: 10,
            connected_drone_ids: vec![0],
        },
        Client {
            id: 11,
            connected_drone_ids: vec![0],
        },
    ];
    let plan = bootstrap_plan(&drones, &clients, &[], &registry()).unwrap();
    assert_eq!(
        plan[1].role,
        Role::Client {
            factory: 0,
            kind: ClientKind::Web
        }
    );
    assert_eq!(
        plan[2].role,
        Role::Client {
            factory: 1,
            kind: ClientKind::Chat
        }
    );
}

#[test]
fn missing_factory_is_reported() {
    let (drones, clients, servers) = ring();
    let mut none_for_servers = registry();
    none_for_servers.servers = 0;
    assert_eq!(
        bootstrap_plan(&drones, &clients, &servers, &none_for_servers).err(),
        Some(BootstrapError::NoFactory { node: 12 })
    );
    let mut none_for_clients = registry();
    none_for_clients.clients = vec![];
    assert_eq!(
        bootstrap_plan(&drones, &clients, &servers, &none_for_clients).err(),
        Some(BootstrapError::NoFactory { node: 11 })
    );
    let mut none_for_drones = registry();
    none_for_drones.drones = 0;
    assert_eq!(
        bootstrap_plan(&drones, &clients, &servers, &none_for_drones).err(),
        Some(BootstrapError::NoFactory { node: 0 })
    );
    // a role without nodes needs no factory
    assert!(bootstrap_plan(&drones, &clients, &[], &none_for_servers).is_err());
    assert!(bootstrap_plan(&[], &[], &[], &none_for_drones).unwrap().is_empty());
}

#[test]
fn missing_channel_is_reported() {
    let (mut drones, clients, servers) = ring();
    drones[2].connected_node_ids = vec![1, 77, 78];
    assert_eq!(
        bootstrap_plan(&drones, &clients, &servers, &registry()).err(),
        Some(BootstrapError::MissingChannel {
            node: 2,
            neighbor: 77
        })
    );
}

#[test]
fn one_channel_for_each_node() {
    let (drones, clients, servers) = ring();
    let channels = create_channels::<u32>(&drones, &clients, &servers);
    let ids: Vec<u8> = channels.iter().map(|(id, _)| *id).collect();
    assert_eq!(ids, vec![0, 1, 2, 3, 11, 12]);
    for (_, (sender, receiver)) in &channels {
        assert!(receiver.is_empty());
        assert_eq!(sender.capacity(), None);
    }
    // the two ends of an entry belong together, and to no other entry
    channels[2].1 .0.send(22).unwrap();
    assert_eq!(channels[2].1 .1.try_recv(), Ok(22));
    for (_, (_, receiver)) in &channels {
        assert!(receiver.try_recv().is_err());
    }
}

#[test]
fn control_channels_by_id() {
    let channels = create_scl_channels::<String>(&[5, 9, 5]);
    let ids: Vec<u8> = channels.iter().map(|(id, _)| *id).collect();
    assert_eq!(ids, vec![5, 9, 5]);
    channels[0].1 .0.send("a".to_string()).unwrap();
    assert!(channels[2].1 .1.try_recv().is_err());
    assert_eq!(channels[0].1 .1.try_recv(), Ok("a".to_string()));
    assert!(create_scl_channels::<u8>(&[]).is_empty());
}

#[test]
fn every_edge_carries_messages_both_ways() {
    let (drones, clients, servers) = ring();
    assert!(check_topology_constraints(&drones, &clients, &servers));
    let plan = bootstrap_plan(&drones, &clients, &servers, &registry()).unwrap();
    let channels = create_channels::<(u8, u8)>(&drones, &clients, &servers);
    assert_eq!(plan.len(), channels.len());

    let mut edges = 0;
    for launch in &plan {
        assert_eq!(channels[launch.inbound].0, launch.id);
        for link in &launch.outbound {
            // the handle that the node would be given
            let handle = channels[link.channel].1 .0.clone();
            handle.send((launch.id, link.neighbor)).unwrap();
            // arrives at the neighbor and nowhere else
            let neighbor = plan.iter().find(|l| l.id == link.neighbor).unwrap();
            let inbound = &channels[neighbor.inbound].1 .1;
            assert_eq!(inbound.try_recv(), Ok((launch.id, link.neighbor)));
            for (_, (_, receiver)) in &channels {
                assert!(receiver.is_empty());
            }
            // and the neighbor holds a handle back
            assert!(neighbor.outbound.iter().any(|l| l.neighbor == launch.id
                && channels[l.channel].0 == launch.id
                && l.channel == launch.inbound));
            edges += 1;
        }
    }
    assert_eq!(edges, 14);
}
