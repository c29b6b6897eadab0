//! Ponger: the passive end of a pinger, which releases the photon of every
//! pair established towards it.

use crate::error::SimError;
use crate::event::{AppEventData, EprFidelityData, EprResponseData, Event, EventType, NodeEventData};
use vstd::prelude::*;

verus! {

/// Answers the requests addressed to `this_node_id:this_port`.
#[derive(Debug)]
pub struct Ponger {
    this_node_id: u32,
    this_port: u16,
}

/// What `Ponger::handle` returns for an event.
pub open spec fn ponger_handled(a: Ponger, event: Event, r: Result<Vec<Event>, SimError>) -> bool {
            match event.event_type {
                EventType::AppEvent(AppEventData::EprResponse(data)) => if a.accepts_response(data) {
                    r is Ok && r.unwrap()@ == seq![a.release(data)]
                } else {
                    r == Err::<Vec<Event>, SimError>(SimError::ProtocolViolation)
                },
                _ => r == Err::<Vec<Event>, SimError>(SimError::ProtocolViolation),
            }
}

impl Ponger {
    pub closed spec fn this_node_id_spec(&self) -> u32 {
        self.this_node_id
    }

    pub closed spec fn this_port_spec(&self) -> u16 {
        self.this_port
    }

    /// A ponger at `this_node_id:this_port`.
    pub fn new(this_node_id: u32, this_port: u16) -> (r: Self)
        ensures
            r.this_node_id_spec() == this_node_id,
            r.this_port_spec() == this_port,
    {
        Ponger { this_node_id, this_port }
    }

    /// A response is for this ponger.
    pub open spec fn accepts_response(&self, data: EprResponseData) -> bool {
        &&& !data.is_source
        &&& data.epr.target_node_id == self.this_node_id_spec()
        &&& data.epr.target_port == self.this_port_spec()
        &&& data.memory_cell is Some
    }

    /// The release of the local photon of a response, measured on behalf of
    /// the requesting application.
    pub open spec fn release(&self, data: EprResponseData) -> Event {
        Event {
            time: 0,
            event_type: EventType::NodeEvent(
                NodeEventData::EprFidelity(
                    EprFidelityData {
                        app_node_id: data.epr.source_node_id,
                        port: data.epr.source_port,
                        consume_node_id: self.this_node_id_spec(),
                        memory_cell: data.memory_cell.unwrap(),
                    },
                ),
            ),
            transfer: None,
        }
    }

    /// Release the local photon of an established pair. A response meant
    /// for the requesting end, for another application, or without a memory
    /// cell is a protocol violation.
    pub fn handle_epr_response(&mut self, data: EprResponseData) -> (r: Result<Vec<Event>, SimError>)
        ensures
            *final(self) == *old(self),
            old(self).accepts_response(data) ==> r is Ok && r.unwrap()@ == seq![old(self).release(data)],
            !old(self).accepts_response(data) ==> r == Err::<Vec<Event>, SimError>(
                SimError::ProtocolViolation,
            ),
    {
        if data.is_source || data.epr.target_node_id != self.this_node_id || data.epr.target_port
            != self.this_port {
            return Err(SimError::ProtocolViolation);
        }
        match data.memory_cell {
            Some(cell) => Ok(
                vec![
                    Event::new(
                        0,
                        EventType::NodeEvent(
                            NodeEventData::EprFidelity(
                                EprFidelityData {
                                    app_node_id: data.epr.source_node_id,
                                    port: data.epr.source_port,
                                    consume_node_id: self.this_node_id,
                                    memory_cell: cell,
                                },
                            ),
                        ),
                    ),
                ],
            ),
            None => Err(SimError::ProtocolViolation),
        }
    }

    /// Dispatch an application event: only responses are expected.
    pub fn handle(&mut self, event: Event) -> (r: Result<Vec<Event>, SimError>)
        ensures
            *final(self) == *old(self),
            ponger_handled(*old(self), event, r),
    {
        match event.event_type {
            EventType::AppEvent(AppEventData::EprResponse(data)) => self.handle_epr_response(data),
            _ => Err(SimError::ProtocolViolation),
        }
    }

    /// A ponger starts with nothing to do.
    pub fn initial(&self) -> (r: Vec<Event>)
        ensures
            r@.len() == 0,
    {
        Vec::new()
    }
}

} // verus!
