//! Applications that request and consume end-to-end EPR pairs.

pub mod client;
pub mod pinger;
pub mod ponger;
pub mod server;

use crate::apps::pinger::RttSample;
use vstd::prelude::*;

verus! {

/// A measurement made by an application.
#[derive(Debug, PartialEq, Eq, Clone, Copy, Structural)]
pub enum AppSample {
    /// Round-trip time of a pinger.
    Rtt(RttSample),
    /// Time from issue to completion of a client request.
    RequestLatency { node_id: u32, port: u16, latency_ns: u64 },
    /// Number of requests pending at a client or server.
    PendingLen { node_id: u32, port: u16, server: bool, len: u64 },
}

} // verus!
