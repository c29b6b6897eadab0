//! Simulation events and their payloads.

use crate::nic::Role;
use vstd::prelude::*;

verus! {

/// A generator fired on the logical link `master -> slave`.
#[derive(Debug, PartialEq, Eq, Clone, Copy, Structural)]
pub struct EprGeneratedData {
    pub tx_node_id: u32,
    pub master_node_id: u32,
    pub slave_node_id: u32,
}

/// A new EPR pair reached one of its two end nodes.
#[derive(Debug, PartialEq, Eq, Clone, Copy, Structural)]
pub struct EprNotifiedData {
    pub this_node_id: u32,
    pub peer_node_id: u32,
    pub role: Role,
    pub epr_pair_id: u64,
}

/// Identifies one memory cell of a node: the NIC towards `neighbor_node_id`
/// with the given role, and the pair it stores.
#[derive(Debug, PartialEq, Eq, Clone, Copy, Structural)]
pub struct MemoryCellId {
    pub neighbor_node_id: u32,
    pub role: Role,
    pub local_pair_id: u64,
}

/// An application measures the pair held in a memory cell.
#[derive(Debug, PartialEq, Eq, Clone, Copy, Structural)]
pub struct EprFidelityData {
    /// Node where the application runs.
    pub app_node_id: u32,
    /// Port where the application runs.
    pub port: u16,
    /// Node that consumes the EPR pair.
    pub consume_node_id: u32,
    /// The memory cell that holds the consumed photon.
    pub memory_cell: MemoryCellId,
}

/// Entanglement request sent along a path, one hop at a time.
#[derive(Debug, PartialEq, Eq, Clone, Copy, Structural)]
pub struct EsRequestData {
    /// The end-to-end request.
    pub epr: EprFiveTuple,
    /// Node that sent this hop.
    pub prev_hop: u32,
    /// Node that receives this hop.
    pub next_hop: u32,
    /// Number of hops of the whole path.
    pub hops: u32,
    /// Pair that `prev_hop` locked for this request, shared with
    /// `next_hop`.
    pub local_pair_id: u64,
}

#[derive(Debug, PartialEq, Eq, Clone, Copy, Structural)]
pub enum NodeEventData {
    /// New EPR pair generated by a transmitter.
    EprGenerated(EprGeneratedData),
    /// EPR pair notified at a node.
    EprNotified(EprNotifiedData),
    /// Measure the fidelity of a given EPR pair.
    EprFidelity(EprFidelityData),
    /// A hop of an entanglement request reached `next_hop`.
    EsRequest(EsRequestData),
    /// The target finished its local corrections.
    EsLocalComplete(EsRequestData),
    /// The request failed at `next_hop`; its source learns of it.
    EsFailure(EsRequestData),
    /// The source learns that its request is complete at the target.
    EsRemoteComplete(EprFiveTuple),
}

/// Every EPR request is identified by its five-tuple: source node and port,
/// target node and port, request identifier.
#[derive(Debug, PartialEq, Eq, Clone, Copy, Structural)]
pub struct EprFiveTuple {
    pub source_node_id: u32,
    pub source_port: u16,
    pub target_node_id: u32,
    pub target_port: u16,
    pub request_id: u64,
}

impl EprFiveTuple {
    pub fn new(
        source_node_id: u32,
        source_port: u16,
        target_node_id: u32,
        target_port: u16,
        request_id: u64,
    ) -> (r: Self)
        ensures
            r == (EprFiveTuple {
                source_node_id,
                source_port,
                target_node_id,
                target_port,
                request_id,
            }),
    {
        Self { source_node_id, source_port, target_node_id, target_port, request_id }
    }
}

/// Answer to an EPR request, delivered to the application at either end.
#[derive(Debug, PartialEq, Eq, Clone, Copy, Structural)]
pub struct EprResponseData {
    /// Five-tuple of the request.
    pub epr: EprFiveTuple,
    /// True at the node that issued the request.
    pub is_source: bool,
    /// The memory cell that holds the local photon, None if the request
    /// failed.
    pub memory_cell: Option<MemoryCellId>,
}

#[derive(Debug, PartialEq, Eq, Clone, Copy, Structural)]
pub enum OsEventData {
    /// New EPR request by an application, identified by its five-tuple.
    EprRequestApp(EprFiveTuple),
}

#[derive(Debug, PartialEq, Eq, Clone, Copy, Structural)]
pub enum AppEventData {
    /// The application at node and port should issue a new request.
    EprRequest(u32, u16),
    /// Response to an EPR request.
    EprResponse(EprResponseData),
    /// Local operations complete for a given EPR request, at its source
    /// (true) or at its target (false).
    LocalComplete(EprFiveTuple, bool),
    /// Remote operations complete for a given EPR request.
    RemoteComplete(EprFiveTuple),
}

#[derive(Debug, PartialEq, Eq, Clone, Copy, Structural)]
pub enum EventType {
    /// The warm-up period expires.
    WarmupPeriodEnd,
    /// The simulation ends.
    ExperimentEnd,
    /// Progress report, in percent.
    Progress(u16),
    /// Node-related event.
    NodeEvent(NodeEventData),
    /// OS-related event.
    OsEvent(OsEventData),
    /// Application-related event.
    AppEvent(AppEventData),
}

/// A message that crosses the classical channel from `src_node` to
/// `dst_node`; `done` once its propagation delay has been added.
#[derive(Debug, PartialEq, Eq, Clone, Copy, Structural)]
pub struct Transfer {
    pub src_node: u32,
    pub dst_node: u32,
    pub done: bool,
}

/// A simulation event at a time in nanoseconds. Handlers create events with
/// a time relative to the present; the event queue makes it absolute.
#[derive(Debug, PartialEq, Eq, Clone, Copy, Structural)]
pub struct Event {
    pub time: u64,
    pub event_type: EventType,
    pub transfer: Option<Transfer>,
}

impl Event {
    pub open spec fn time_spec(&self) -> u64 {
        self.time
    }

    /// An event at `time` nanoseconds.
    pub fn new(time: u64, event_type: EventType) -> (r: Self)
        ensures
            r == (Event { time, event_type, transfer: None }),
    {
        Self { time, event_type, transfer: None }
    }

    /// A message from `src_node` to `dst_node`, sent now; the network adds
    /// the propagation delay.
    pub fn new_transfer(event_type: EventType, src_node: u32, dst_node: u32) -> (r: Self)
        ensures
            r == (Event { time: 0, event_type, transfer: Some(Transfer { src_node, dst_node, done: false }) }),
    {
        Self { time: 0, event_type, transfer: Some(Transfer { src_node, dst_node, done: false }) }
    }

    pub fn time(&self) -> (r: u64)
        ensures
            r == self.time_spec(),
    {
        self.time
    }

    /// Move the event forward by `advance_time` nanoseconds.
    pub fn advance(&mut self, advance_time: u64)
        requires
            old(self).time_spec() + advance_time <= u64::MAX,
        ensures
            *final(self) == (Event { time: (old(self).time + advance_time) as u64, ..*old(self) }),
    {
        self.time = self.time + advance_time;
    }
}

} // verus!
