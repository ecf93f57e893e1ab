//! The plan by which a topology is started: for every node, which factory
//! builds it, which channel it reads, and which channels it writes to.
//!
//! Channels are named by their position in the table that
//! [`crate::channels::create_channels`] makes: position `i` holds the inbound
//! queue of the node at position `i` of the topology (drones first, then
//! clients, then servers).

use crate::config::{
    lemma_ids_of_nodes, topology_of, Client, Drone, NodeView, Server, Topology,
};
use crate::rules::subset_ok;
use crate::topology_utils::{ids_of_clients, ids_of_drones, ids_of_servers};
use vstd::prelude::*;

verus! {

/// The two kinds of client, which are built and controlled in different ways.
#[derive(Debug, Clone, Copy, PartialEq, Eq, Structural)]
pub enum ClientKind {
    Web,
    Chat,
}

/// How many factories there are for each role. For the clients the registry
/// also says of what kind each factory's clients are.
#[derive(Debug, Clone)]
pub struct FactoryRegistry {
    pub drones: usize,
    pub clients: Vec<ClientKind>,
    pub servers: usize,
}

/// What a node is to be, and the position of the factory that builds it in
/// its role's part of the registry.
#[derive(Debug, Clone, Copy, PartialEq, Eq, Structural)]
pub enum Role {
    Drone { factory: usize, pdr: u32 },
    Client { factory: usize, kind: ClientKind },
    Server { factory: usize },
}

/// A sending handle that a node is given: to which neighbor, and into which
/// channel of the table.
#[derive(Debug, Clone, Copy, PartialEq, Eq, Structural)]
pub struct Link {
    pub neighbor: u8,
    pub channel: usize,
}

/// Everything that is needed to build and start one node.
#[derive(Debug, Clone)]
pub struct Launch {
    pub id: u8,
    pub role: Role,
    /// The channel that the node receives from.
    pub inbound: usize,
    /// One sending handle for each neighbor, in the order of the node's list.
    pub outbound: Vec<Link>,
}

/// Why no plan could be made.
#[derive(Debug, Clone, Copy, PartialEq, Eq, Structural)]
pub enum BootstrapError {
    /// The registry has no factory for the role of this node.
    NoFactory { node: u8 },
    /// This node lists a neighbor that is no node, so that there is no
    /// channel to hand it.
    MissingChannel { node: u8, neighbor: u8 },
}

/// `Launch` as a mathematical value.
pub struct LaunchView {
    pub id: u8,
    pub role: Role,
    pub inbound: usize,
    pub outbound: Seq<Link>,
}

impl View for Launch {
    type V = LaunchView;

    open spec fn view(&self) -> LaunchView {
        LaunchView {
            id: self.id,
            role: self.role,
            inbound: self.inbound,
            outbound: self.outbound@,
        }
    }
}

/// The views of a list of launches, in order.
pub open spec fn launch_views(plan: Seq<Launch>) -> Seq<LaunchView> {
    plan.map_values(|l: Launch| l@)
}

/// `FactoryRegistry` as a mathematical value.
pub struct RegistryView {
    pub drones: usize,
    pub clients: Seq<ClientKind>,
    pub servers: usize,
}

impl View for FactoryRegistry {
    type V = RegistryView;

    open spec fn view(&self) -> RegistryView {
        RegistryView { drones: self.drones, clients: self.clients@, servers: self.servers }
    }
}

/// The factory for the node `id` among `registered` factories: the remainder
/// of the id by their number.
pub open spec fn factory_for(id: u8, registered: int) -> int
    recommends
        registered > 0,
{
    (id as int) % registered
}

/// `i` is the channel of the node `id`: the first position at which the id
/// stands in the list of all ids.
pub open spec fn is_channel_of(ids: Seq<u8>, id: u8, i: int) -> bool {
    &&& 0 <= i < ids.len()
    &&& ids[i] == id
    &&& forall|j: int| 0 <= j < i ==> ids[j] != id
}

/// `k` is the position of the first listed neighbor that is no node.
pub open spec fn is_first_missing(ids: Seq<u8>, neighbors: Seq<u8>, k: int) -> bool {
    &&& 0 <= k < neighbors.len()
    &&& !ids.contains(neighbors[k])
    &&& forall|j: int| 0 <= j < k ==> ids.contains(#[trigger] neighbors[j])
}

/// The links of a node are one for each neighbor, in order, each into the
/// neighbor's channel.
pub open spec fn links_ok(ids: Seq<u8>, neighbors: Seq<u8>, links: Seq<Link>) -> bool {
    &&& links.len() == neighbors.len()
    &&& forall|k: int|
        0 <= k < neighbors.len() ==> (#[trigger] links[k]).neighbor == neighbors[k]
            && is_channel_of(ids, neighbors[k], links[k].channel as int)
}

/// `e` is what keeps `node` from being started, where `ids` are the ids of
/// all nodes and `registered` is the number of factories for its role: there
/// is no factory, or else a neighbor is no node, and `e` names the first such
/// neighbor.
pub open spec fn node_fails(ids: Seq<u8>, node: NodeView, registered: int, e: BootstrapError)
    -> bool {
    match e {
        BootstrapError::NoFactory { node: id } => {
            &&& id == node.id
            &&& registered == 0
        },
        BootstrapError::MissingChannel { node: id, neighbor } => {
            &&& id == node.id
            &&& registered > 0
            &&& exists|k: int|
                is_first_missing(ids, node.neighbors, k) && #[trigger] node.neighbors[k]
                    == neighbor
        },
    }
}

impl Topology {
    /// How many factories the registry has for the role of the node at
    /// position `i`.
    pub open spec fn registered_for(self, registry: RegistryView, i: int) -> int {
        if i < self.drones.len() {
            registry.drones as int
        } else if i < self.drones.len() + self.clients.len() {
            registry.clients.len() as int
        } else {
            registry.servers as int
        }
    }

    /// The role of the node at position `i`, with the factory chosen for it.
    pub open spec fn role_at(self, registry: RegistryView, i: int) -> Role
        recommends
            0 <= i < self.len(),
            self.registered_for(registry, i) > 0,
    {
        let id = self.nodes()[i].id;
        let factory = factory_for(id, self.registered_for(registry, i)) as usize;
        if i < self.drones.len() {
            Role::Drone { factory, pdr: self.drones[i].pdr }
        } else if i < self.drones.len() + self.clients.len() {
            Role::Client { factory, kind: registry.clients[factory as int] }
        } else {
            Role::Server { factory }
        }
    }

    /// The node at position `i` can be started: there is a factory for its
    /// role, and each of its neighbors is a node.
    pub open spec fn ready_at(self, registry: RegistryView, i: int) -> bool {
        &&& self.registered_for(registry, i) > 0
        &&& subset_ok(self.nodes()[i].neighbors, self.ids())
    }

    /// Every node can be started.
    pub open spec fn ready(self, registry: RegistryView) -> bool {
        forall|i: int| 0 <= i < self.len() ==> self.ready_at(registry, i)
    }

    /// `e` is what keeps the node at position `i` from being started.
    pub open spec fn fails_at(self, registry: RegistryView, i: int, e: BootstrapError) -> bool {
        node_fails(self.ids(), self.nodes()[i], self.registered_for(registry, i), e)
    }

    /// `launch` is the launch of the node at position `i`.
    pub open spec fn launch_at(self, registry: RegistryView, i: int, launch: LaunchView) -> bool {
        &&& launch.id == self.nodes()[i].id
        &&& launch.role == self.role_at(registry, i)
        &&& launch.inbound == i
        &&& links_ok(self.ids(), self.nodes()[i].neighbors, launch.outbound)
    }

    /// `plan` is the plan for this topology: one launch for each node, in the
    /// order of the nodes.
    pub open spec fn planned(self, registry: RegistryView, plan: Seq<LaunchView>) -> bool {
        &&& plan.len() == self.len()
        &&& forall|i: int| 0 <= i < self.len() ==> self.launch_at(registry, i, #[trigger] plan[i])
    }
}

/// Chooses the factory for a node among `registered` factories, by the
/// node's id alone, so that the same topology is always built the same way.
pub fn select_factory(id: u8, registered: usize) -> (factory: usize)
    requires
        registered > 0,
    ensures
        factory == factory_for(id, registered as int),
        factory < registered,
{
    (id as usize) % registered
}

/// Finds the channel of the node `id`.
pub fn channel_of(ids: &[u8], id: u8) -> (r: Option<usize>)
    ensures
        match r {
            Some(i) => is_channel_of(ids@, id, i as int),
            None => !ids@.contains(id),
        },
{
    let mut i: usize = 0;
    while i < ids.len()
        invariant
            0 <= i <= ids.len(),
            forall|j: int| 0 <= j < i ==> ids@[j] != id,
        decreases ids.len() - i,
    {
        if ids[i] == id {
            return Some(i);
        }
        i += 1;
    }
    None
}

/// Makes the sending handles of one node: one link for each neighbor, or the
/// first neighbor that has no channel.
pub fn links_to(ids: &[u8], neighbors: &[u8]) -> (r: Result<Vec<Link>, u8>)
    ensures
        match r {
            Ok(links) => subset_ok(neighbors@, ids@) && links_ok(ids@, neighbors@, links@),
            Err(missing) => exists|k: int|
                is_first_missing(ids@, neighbors@, k) && #[trigger] neighbors@[k] == missing,
        },
{
    let mut links: Vec<Link> = Vec::new();
    let mut k: usize = 0;
    while k < neighbors.len()
        invariant
            0 <= k <= neighbors.len(),
            links@.len() == k,
            forall|j: int| 0 <= j < k ==> ids@.contains(#[trigger] neighbors@[j]),
            forall|j: int|
                0 <= j < k ==> (#[trigger] links@[j]).neighbor == neighbors@[j] && is_channel_of(
                    ids@,
                    neighbors@[j],
                    links@[j].channel as int,
                ),
        decreases neighbors.len() - k,
    {
        let neighbor = neighbors[k];
        match channel_of(ids, neighbor) {
            Some(channel) => {
                links.push(Link { neighbor, channel });
            },
            None => {
                assert(is_first_missing(ids@, neighbors@, k as int));
                return Err(neighbor);
            },
        }
        k += 1;
    }
    Ok(links)
}

/// Prepares one node: chooses its factory and makes its sending handles.
fn prepare(ids: &[u8], id: u8, neighbors: &[u8], registered: usize) -> (r: Result<
    (usize, Vec<Link>),
    BootstrapError,
>)
    ensures
        match r {
            Ok((factory, links)) => {
                &&& registered > 0
                &&& factory == factory_for(id, registered as int)
                &&& factory < registered
                &&& subset_ok(neighbors@, ids@)
                &&& links_ok(ids@, neighbors@, links@)
            },
            Err(e) => node_fails(
                ids@,
                NodeView { id, neighbors: neighbors@ },
                registered as int,
                e,
            ),
        },
{
    if registered == 0 {
        return Err(BootstrapError::NoFactory { node: id });
    }
    let factory = select_factory(id, registered);
    match links_to(ids, neighbors) {
        Ok(links) => Ok((factory, links)),
        Err(neighbor) => {
            proof {
                let node = NodeView { id, neighbors: neighbors@ };
                let k = choose|k: int|
                    is_first_missing(ids@, neighbors@, k) && #[trigger] neighbors@[k] == neighbor;
                assert(is_first_missing(ids@, node.neighbors, k) && node.neighbors[k] == neighbor);
            }
            Err(BootstrapError::MissingChannel { node: id, neighbor })
        },
    }
}

/// Plans the start of a topology: one launch for each node, drones first,
/// then clients, then servers, each in its listed order.
///
/// Every node gets the factory that its id selects in its role's part of the
/// registry, its own channel to read from, and for each neighbor a link into
/// that neighbor's channel. Planning stops at the first node that cannot be
/// started, and says why.
pub fn bootstrap_plan(
    drones: &[Drone],
    clients: &[Client],
    servers: &[Server],
    registry: &FactoryRegistry,
) -> (r: Result<Vec<Launch>, BootstrapError>)
    ensures
        match r {
            Ok(plan) => {
                &&& topology_of(drones@, clients@, servers@).ready(registry@)
                &&& topology_of(drones@, clients@, servers@).planned(
                    registry@,
                    launch_views(plan@),
                )
            },
            Err(e) => exists|i: int|
                {
                    &&& 0 <= i < topology_of(drones@, clients@, servers@).len()
                    &&& #[trigger] topology_of(drones@, clients@, servers@).fails_at(
                        registry@,
                        i,
                        e,
                    )
                    &&& forall|j: int|
                        0 <= j < i ==> topology_of(drones@, clients@, servers@).ready_at(
                            registry@,
                            j,
                        )
                },
        },
{
    let ghost t = topology_of(drones@, clients@, servers@);
    let ghost reg = registry@;
    let mut ids = ids_of_drones(drones);
    let clients_id = ids_of_clients(clients);
    let servers_id = ids_of_servers(servers);
    ids.extend_from_slice(clients_id.as_slice());
    ids.extend_from_slice(servers_id.as_slice());
    proof {
        assert(ids@ =~= t.ids());
        lemma_ids_of_nodes(t);
    }
    let mut plan: Vec<Launch> = Vec::new();
    let mut i: usize = 0;
    while i < drones.len()
        invariant
            0 <= i <= drones.len(),
            t == topology_of(drones@, clients@, servers@),
            reg == registry@,
            ids@ == t.ids(),
            t.ids().len() == t.len(),
            plan@.len() == i,
            forall|j: int| 0 <= j < i ==> t.ready_at(reg, j),
            forall|j: int| 0 <= j < i ==> t.launch_at(reg, j, (#[trigger] plan@[j])@),
        decreases drones.len() - i,
    {
        let drone = &drones[i];
        assert(t.nodes()[i as int] == drone@.node());
        assert(t.drones[i as int] == drone@);
        match prepare(
            ids.as_slice(),
            drone.id,
            drone.connected_node_ids.as_slice(),
            registry.drones,
        ) {
            Ok((factory, outbound)) => {
                let launch = Launch {
                    id: drone.id,
                    role: Role::Drone { factory, pdr: drone.pdr },
                    inbound: i,
                    outbound,
                };
                assert(t.launch_at(reg, i as int, launch@));
                plan.push(launch);
            },
            Err(e) => {
                assert(t.fails_at(reg, i as int, e));
                return Err(e);
            },
        }
        i += 1;
    }
    let first_client = drones.len();
    let mut i: usize = 0;
    while i < clients.len()
        invariant
            0 <= i <= clients.len(),
            first_client == drones.len(),
            t == topology_of(drones@, clients@, servers@),
            reg == registry@,
            ids@ == t.ids(),
            t.ids().len() == t.len(),
            plan@.len() == first_client + i,
            forall|j: int| 0 <= j < first_client + i ==> t.ready_at(reg, j),
            forall|j: int|
                0 <= j < first_client + i ==> t.launch_at(reg, j, (#[trigger] plan@[j])@),
        decreases clients.len() - i,
    {
        let client = &clients[i];
        let ghost position = first_client + i;
        assert(t.nodes()[position] == client@);
        assert(t.len() == ids.len());
        match prepare(
            ids.as_slice(),
            client.id,
            client.connected_drone_ids.as_slice(),
            registry.clients.len(),
        ) {
            Ok((factory, outbound)) => {
                let launch = Launch {
                    id: client.id,
                    role: Role::Client { factory, kind: registry.clients[factory] },
                    inbound: first_client + i,
                    outbound,
                };
                assert(t.launch_at(reg, position, launch@));
                plan.push(launch);
            },
            Err(e) => {
                assert(t.fails_at(reg, position, e));
                return Err(e);
            },
        }
        i += 1;
    }
    let first_server = plan.len();
    let mut i: usize = 0;
    while i < servers.len()
        invariant
            0 <= i <= servers.len(),
            first_server == drones.len() + clients.len(),
            t == topology_of(drones@, clients@, servers@),
            reg == registry@,
            ids@ == t.ids(),
            t.ids().len() == t.len(),
            plan@.len() == first_server + i,
            forall|j: int| 0 <= j < first_server + i ==> t.ready_at(reg, j),
            forall|j: int|
                0 <= j < first_server + i ==> t.launch_at(reg, j, (#[trigger] plan@[j])@),
        decreases servers.len() - i,
    {
        let server = &servers[i];
        let ghost position = first_server + i;
        assert(t.nodes()[position] == server@);
        assert(t.len() == ids.len());
        match prepare(
            ids.as_slice(),
            server.id,
            server.connected_drone_ids.as_slice(),
            registry.servers,
        ) {
            Ok((factory, outbound)) => {
                let launch = Launch {
                    id: server.id,
                    role: Role::Server { factory },
                    inbound: first_server + i,
                    outbound,
                };
                assert(t.launch_at(reg, position, launch@));
                plan.push(launch);
            },
            Err(e) => {
                assert(t.fails_at(reg, position, e));
                return Err(e);
            },
        }
        i += 1;
    }
    proof {
        let views = launch_views(plan@);
        assert forall|j: int| 0 <= j < t.len() implies t.launch_at(reg, j, #[trigger] views[j]) by {
            assert(views[j] == plan@[j]@);
        }
    }
    Ok(plan)
}

} // verus!
