//! The channels that carry packets and control messages between the nodes.
//!
//! The channels are crossbeam's. Verus sees their two ends as opaque values:
//! what is proved here is which node each channel is made for, not what
//! travels through it.

use crate::config::{
    client_views, drone_ids, drone_views, node_ids, server_views, topology_of, Client, Drone,
    Server,
};
use crossbeam_channel::{Receiver, Sender};
use vstd::prelude::*;

verus! {

#[verifier::external_type_specification]
#[verifier::external_body]
#[verifier::reject_recursive_types(T)]
pub struct ExSender<T>(Sender<T>);

#[verifier::external_type_specification]
#[verifier::external_body]
#[verifier::reject_recursive_types(T)]
pub struct ExReceiver<T>(Receiver<T>);

/// `crossbeam_channel::unbounded`: the two ends of a new channel. Nothing is
/// claimed of them.
pub assume_specification<T>[ crossbeam_channel::unbounded::<T> ]() -> (ends: (
    Sender<T>,
    Receiver<T>,
));

/// One channel for each of `ids`, in their order, each with the id it is made
/// for.
pub fn create_scl_channels<T>(ids: &[u8]) -> (channels: Vec<(u8, (Sender<T>, Receiver<T>))>)
    ensures
        channels@.len() == ids@.len(),
        forall|i: int| 0 <= i < ids@.len() ==> (#[trigger] channels@[i]).0 == ids@[i],
{
    let mut channels: Vec<(u8, (Sender<T>, Receiver<T>))> = Vec::new();
    let mut i: usize = 0;
    while i < ids.len()
        invariant
            0 <= i <= ids.len(),
            channels@.len() == i,
            forall|k: int| 0 <= k < i ==> (#[trigger] channels@[k]).0 == ids@[k],
        decreases ids.len() - i,
    {
        channels.push((ids[i], crossbeam_channel::unbounded()));
        i += 1;
    }
    channels
}

/// One packet channel for every node of the topology: for the drones first,
/// then the clients, then the servers, each in its listed order. The channel
/// at position `i` is the inbound queue of the node at position `i`.
pub fn create_channels<T>(drones: &[Drone], clients: &[Client], servers: &[Server]) -> (channels:
    Vec<(u8, (Sender<T>, Receiver<T>))>)
    ensures
        channels@.len() == topology_of(drones@, clients@, servers@).ids().len(),
        forall|i: int|
            0 <= i < channels@.len() ==> (#[trigger] channels@[i]).0 == topology_of(
                drones@,
                clients@,
                servers@,
            ).ids()[i],
{
    let ghost d = drone_ids(drone_views(drones@));
    let ghost c = node_ids(client_views(clients@));
    let ghost s = node_ids(server_views(servers@));
    let mut channels: Vec<(u8, (Sender<T>, Receiver<T>))> = Vec::new();
    let mut i: usize = 0;
    while i < drones.len()
        invariant
            0 <= i <= drones.len(),
            d == drone_ids(drone_views(drones@)),
            channels@.len() == i,
            forall|k: int| 0 <= k < i ==> (#[trigger] channels@[k]).0 == d[k],
        decreases drones.len() - i,
    {
        channels.push((drones[i].id, crossbeam_channel::unbounded()));
        i += 1;
    }
    let mut i: usize = 0;
    while i < clients.len()
        invariant
            0 <= i <= clients.len(),
            d.len() == drones.len(),
            c == node_ids(client_views(clients@)),
            channels@.len() == d.len() + i,
            forall|k: int| 0 <= k < d.len() + i ==> (#[trigger] channels@[k]).0 == (d + c)[k],
        decreases clients.len() - i,
    {
        channels.push((clients[i].id, crossbeam_channel::unbounded()));
        i += 1;
    }
    let mut i: usize = 0;
    while i < servers.len()
        invariant
            0 <= i <= servers.len(),
            d.len() == drones.len(),
            c.len() == clients.len(),
            s == node_ids(server_views(servers@)),
            channels@.len() == d.len() + c.len() + i,
            forall|k: int|
                0 <= k < d.len() + c.len() + i ==> (#[trigger] channels@[k]).0 == (d + c + s)[k],
        decreases servers.len() - i,
    {
        channels.push((servers[i].id, crossbeam_channel::unbounded()));
        i += 1;
    }
    channels
}

} // verus!
