//! Server: the passive end of a client, which holds each pair for the
//! duration of its local operations, then measures it and tells the client.

use crate::apps::AppSample;
use crate::error::SimError;
use crate::event::{
    AppEventData, EprFidelityData, EprFiveTuple, EprResponseData, Event, EventType, MemoryCellId,
    NodeEventData,
};
use vstd::prelude::*;

verus! {

/// A pair held by a server for a client request.
#[derive(Debug, PartialEq, Eq, Clone, Copy, Structural)]
pub struct ServerEntry {
    pub epr: EprFiveTuple,
    pub memory_cell: MemoryCellId,
}

/// Serves the requests addressed to `this_node_id:this_port`.
#[derive(Debug)]
pub struct Server {
    this_node_id: u32,
    this_port: u16,
    pending: Vec<ServerEntry>,
}

/// The server's answer once its operations on a request are done: measure
/// the photon on behalf of the client, and tell the client.
pub open spec fn server_done(this_node_id: u32, e: ServerEntry) -> Seq<Event> {
    seq![
        Event {
            time: 0,
            event_type: EventType::NodeEvent(
                NodeEventData::EprFidelity(
                    EprFidelityData {
                        app_node_id: e.epr.source_node_id,
                        port: e.epr.source_port,
                        consume_node_id: this_node_id,
                        memory_cell: e.memory_cell,
                    },
                ),
            ),
            transfer: None,
        },
        Event {
            time: 0,
            event_type: EventType::AppEvent(AppEventData::RemoteComplete(e.epr)),
            transfer: Some(crate::event::Transfer { src_node: this_node_id, dst_node: e.epr.source_node_id, done: false }),
        },
    ]
}

/// What `Server::handle_epr_response` does: a pair for a request addressed
/// here is held, and its local operations last `local_ops_ns`.
pub open spec fn received_pair(a: Server, b: Server, data: EprResponseData, local_ops_ns: u64, r: Result<(Vec<Event>, Vec<AppSample>), SimError>) -> bool {
    if !data.is_source && data.epr.target_node_id == a.this_node_id_spec() && data.epr.target_port == a.this_port_spec()
        && data.memory_cell is Some {
        &&& r is Ok
        &&& b.pending_spec() == a.pending_spec().push(ServerEntry { epr: data.epr, memory_cell: data.memory_cell.unwrap() })
        &&& r.unwrap().0@ == seq![
            Event { time: local_ops_ns, event_type: EventType::AppEvent(AppEventData::LocalComplete(data.epr, false)), transfer: None },
        ]
    } else {
        r == Err::<(Vec<Event>, Vec<AppSample>), SimError>(SimError::ProtocolViolation) && b == a
    }
}

/// What `Server::handle_local_complete` does: the first held pair of the
/// request is measured and the client told.
pub open spec fn served(a: Server, b: Server, epr: EprFiveTuple, r: Result<(Vec<Event>, Vec<AppSample>), SimError>) -> bool {
    if epr.target_node_id == a.this_node_id_spec() && epr.target_port == a.this_port_spec() && exists|j: int|
        0 <= j < a.pending_spec().len() && (#[trigger] a.pending_spec()[j]).epr == epr {
        &&& r is Ok
        &&& exists|j: int|
            0 <= j < a.pending_spec().len() && (#[trigger] a.pending_spec()[j]).epr == epr && b.pending_spec()
                == a.pending_spec().remove(j) && r.unwrap().0@ == server_done(a.this_node_id_spec(), a.pending_spec()[j])
    } else {
        r == Err::<(Vec<Event>, Vec<AppSample>), SimError>(SimError::ProtocolViolation) && b == a
    }
}

/// What `Server::handle` does with an event.
pub open spec fn server_handled(a: Server, b: Server, event: Event, delay_ns: u64, r: Result<(Vec<Event>, Vec<AppSample>), SimError>) -> bool {
            match event.event_type {
                EventType::AppEvent(AppEventData::EprResponse(d)) => received_pair(a, b, d, delay_ns, r),
                EventType::AppEvent(AppEventData::LocalComplete(epr, _)) => served(a, b, epr, r),
                _ => r == Err::<(Vec<Event>, Vec<AppSample>), SimError>(SimError::ProtocolViolation) && b == a,
            }
}

impl Server {
    pub closed spec fn pending_spec(&self) -> Seq<ServerEntry> {
        self.pending@
    }

    pub closed spec fn this_node_id_spec(&self) -> u32 {
        self.this_node_id
    }

    pub closed spec fn this_port_spec(&self) -> u16 {
        self.this_port
    }

    /// A server at `this_node_id:this_port`.
    pub fn new(this_node_id: u32, this_port: u16) -> (r: Self)
        ensures
            r.pending_spec().len() == 0,
            r.this_node_id_spec() == this_node_id,
            r.this_port_spec() == this_port,
    {
        Server { this_node_id, this_port, pending: Vec::new() }
    }

    fn pending_len(&self) -> AppSample {
        AppSample::PendingLen { node_id: self.this_node_id, port: self.this_port, server: true, len: self.pending.len() as u64 }
    }

    /// A pair for a client request arrived: hold it for `local_ops_ns`.
    pub fn handle_epr_response(&mut self, data: EprResponseData, local_ops_ns: u64) -> (r: Result<(Vec<Event>, Vec<AppSample>), SimError>)
        ensures
            received_pair(*old(self), *final(self), data, local_ops_ns, r),
    {
        if data.is_source || data.epr.target_node_id != self.this_node_id || data.epr.target_port != self.this_port {
            return Err(SimError::ProtocolViolation);
        }
        let cell = match data.memory_cell {
            Some(c) => c,
            None => {
                return Err(SimError::ProtocolViolation);
            },
        };
        self.pending.push(ServerEntry { epr: data.epr, memory_cell: cell });
        let events = vec![Event::new(local_ops_ns, EventType::AppEvent(AppEventData::LocalComplete(data.epr, false)))];
        assert(events@ =~= seq![
            Event { time: local_ops_ns, event_type: EventType::AppEvent(AppEventData::LocalComplete(data.epr, false)), transfer: None },
        ]);
        Ok((events, vec![self.pending_len()]))
    }

    /// The operations on a held pair are done: measure it and tell the
    /// client.
    pub fn handle_local_complete(&mut self, epr: EprFiveTuple) -> (r: Result<(Vec<Event>, Vec<AppSample>), SimError>)
        ensures
            served(*old(self), *final(self), epr, r),

    {
        if epr.target_node_id != self.this_node_id || epr.target_port != self.this_port {
            return Err(SimError::ProtocolViolation);
        }
        let mut j: usize = 0;
        while j < self.pending.len()
            invariant
                j <= self.pending@.len(),
                *self == *old(self),
                epr.target_node_id == old(self).this_node_id,
                epr.target_port == old(self).this_port,
                forall|k: int| 0 <= k < j ==> (#[trigger] self.pending@[k]).epr != epr,
            decreases self.pending@.len() - j,
        {
            if self.pending[j].epr == epr {
                assert(old(self).pending_spec()[j as int].epr == epr);
                let e = self.pending.remove(j);
                let events = vec![
                    Event::new(
                        0,
                        EventType::NodeEvent(
                            NodeEventData::EprFidelity(
                                EprFidelityData {
                                    app_node_id: e.epr.source_node_id,
                                    port: e.epr.source_port,
                                    consume_node_id: self.this_node_id,
                                    memory_cell: e.memory_cell,
                                },
                            ),
                        ),
                    ),
                    Event::new_transfer(EventType::AppEvent(AppEventData::RemoteComplete(e.epr)), self.this_node_id, e.epr.source_node_id),
                ];
                assert(events@ =~= server_done(old(self).this_node_id_spec(), e));
                return Ok((events, vec![self.pending_len()]));
            }
            j = j + 1;
        }
        Err(SimError::ProtocolViolation)
    }

    /// Dispatch an application event; `delay_ns` is the duration of the
    /// local operations on a new pair.
    pub fn handle(&mut self, event: Event, delay_ns: u64) -> (r: Result<(Vec<Event>, Vec<AppSample>), SimError>)
        ensures
            server_handled(*old(self), *final(self), event, delay_ns, r),
    {
        match event.event_type {
            EventType::AppEvent(AppEventData::EprResponse(data)) => self.handle_epr_response(data, delay_ns),
            EventType::AppEvent(AppEventData::LocalComplete(epr, _)) => self.handle_local_complete(epr),
            _ => Err(SimError::ProtocolViolation),
        }
    }

    /// A server starts with nothing to do.
    pub fn initial(&self) -> (r: Vec<Event>)
        ensures
            r@.len() == 0,
    {
        Vec::new()
    }
}

} // verus!
