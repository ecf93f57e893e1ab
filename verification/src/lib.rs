//! Topology validation and bootstrap planning for a mesh network of drones,
//! clients and servers.

pub mod bootstrap;
pub mod channels;
pub mod config;
pub mod graph;
pub mod idlist;
pub mod laws;
pub mod pdr;
pub mod reorder;
pub mod rules;
pub mod topology_utils;
