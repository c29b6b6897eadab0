//! Discrete-event simulation core of a quantum entanglement-distribution
//! network: memory cells and NICs, the event queue, the pair register, the
//! physical and logical topologies, nodes with their end-to-end requests,
//! applications, the network and one replication's event loop.

pub mod error;
pub mod reach;
pub mod outside;
pub mod nic;
pub mod event;
pub mod event_queue;
pub mod epr_register;
pub mod physical_topology;
pub mod logical_topology;
pub mod apps;
pub mod node;
pub mod network;
pub mod simulation;
pub mod config;
