//! Pinger: requests EPR pairs towards a peer back to back, measures each one
//! as soon as it is established, and records the round-trip time.

use crate::error::SimError;
use crate::event::{
    AppEventData, EprFidelityData, EprFiveTuple, EprResponseData, Event, EventType, NodeEventData,
    OsEventData,
};
use vstd::prelude::*;

verus! {

/// Round-trip time of one request of a pinger, in nanoseconds.
#[derive(Debug, PartialEq, Eq, Clone, Copy, Structural)]
pub struct RttSample {
    pub this_node_id: u32,
    pub peer_node_id: u32,
    pub rtt_ns: u64,
}

/// Issues requests one after the other until `max_requests` have been
/// issued.
#[derive(Debug)]
pub struct Pinger {
    this_node_id: u32,
    this_port: u16,
    peer_node_id: u32,
    peer_port: u16,
    max_requests: u64,
    /// Identifier of the last request issued; also how many were issued.
    next_request_id: u64,
    /// When the last request was issued.
    created: u64,
}

/// The event that asks the pinger at `node_id:port` to issue a request.
pub open spec fn request_tick(node_id: u32, port: u16) -> Event {
    Event {
        time: 0,
        event_type: EventType::AppEvent(AppEventData::EprRequest(node_id, port)),
        transfer: None,
    }
}

/// What `Pinger::handle` does with an event.
pub open spec fn pinger_handled(a: Pinger, b: Pinger, event: Event, r: Result<(Vec<Event>, Vec<RttSample>), SimError>) -> bool {
            match event.event_type {
                EventType::AppEvent(AppEventData::EprRequest(node_id, port)) => if a.accepts_request(node_id, port) {
                    &&& r is Ok
                    &&& r.unwrap().0@ == seq![a.next_request()]
                    &&& r.unwrap().1@.len() == 0
                    &&& b.issued() == a.issued() + 1
                    &&& b.created_spec() == event.time
                } else {
                    r == Err::<(Vec<Event>, Vec<RttSample>), SimError>(SimError::ProtocolViolation)
                        && b == a
                },
                EventType::AppEvent(AppEventData::EprResponse(data)) => b == a
                    && if a.accepts_response(event.time, data) {
                    &&& r is Ok
                    &&& r.unwrap().0@ == a.response_events(data)
                    &&& r.unwrap().1@ == seq![a.rtt(event.time)]
                } else {
                    r == Err::<(Vec<Event>, Vec<RttSample>), SimError>(SimError::ProtocolViolation)
                },
                _ => r == Err::<(Vec<Event>, Vec<RttSample>), SimError>(SimError::ProtocolViolation)
                    && b == a,
            }
}

impl Pinger {
    /// The request that follows the last one issued.
    pub open spec fn next_request(&self) -> Event {
        Event {
            time: 0,
            event_type: EventType::OsEvent(
                OsEventData::EprRequestApp(
                    EprFiveTuple {
                        source_node_id: self.this_node_id_spec(),
                        source_port: self.this_port_spec(),
                        target_node_id: self.peer_node_id_spec(),
                        target_port: self.peer_port_spec(),
                        request_id: (self.issued() + 1) as u64,
                    },
                ),
            ),
            transfer: None,
        }
    }

    /// A request tick is accepted.
    pub open spec fn accepts_request(&self, node_id: u32, port: u16) -> bool {
        node_id == self.this_node_id_spec() && port == self.this_port_spec() && self.issued() < u64::MAX
    }

    /// A response is accepted at time `now`.
    pub open spec fn accepts_response(&self, now: u64, data: EprResponseData) -> bool {
        data.is_source && data.memory_cell is Some && now >= self.created_spec()
    }

    /// Events that follow a response: measure the local photon and, unless
    /// `max_requests` were issued, ask for the next request.
    pub open spec fn response_events(&self, data: EprResponseData) -> Seq<Event> {
        let fidelity = Event {
            time: 0,
            event_type: EventType::NodeEvent(
                NodeEventData::EprFidelity(
                    EprFidelityData {
                        app_node_id: self.this_node_id_spec(),
                        port: self.this_port_spec(),
                        consume_node_id: self.this_node_id_spec(),
                        memory_cell: data.memory_cell.unwrap(),
                    },
                ),
            ),
            transfer: None,
        };
        if self.issued() < self.max_requests_spec() {
            seq![fidelity, request_tick(self.this_node_id_spec(), self.this_port_spec())]
        } else {
            seq![fidelity]
        }
    }

    /// Round-trip time of a response at `now`.
    pub open spec fn rtt(&self, now: u64) -> RttSample {
        RttSample {
            this_node_id: self.this_node_id_spec(),
            peer_node_id: self.peer_node_id_spec(),
            rtt_ns: (now - self.created_spec()) as u64,
        }
    }

    pub closed spec fn this_node_id_spec(&self) -> u32 {
        self.this_node_id
    }

    pub closed spec fn this_port_spec(&self) -> u16 {
        self.this_port
    }

    pub closed spec fn peer_node_id_spec(&self) -> u32 {
        self.peer_node_id
    }

    pub closed spec fn peer_port_spec(&self) -> u16 {
        self.peer_port
    }

    pub closed spec fn max_requests_spec(&self) -> u64 {
        self.max_requests
    }

    /// Number of requests issued so far, which is also the identifier of the
    /// last one.
    pub closed spec fn issued(&self) -> u64 {
        self.next_request_id
    }

    pub closed spec fn created_spec(&self) -> u64 {
        self.created
    }

    /// A pinger from `this_node_id:this_port` to `peer_node_id:peer_port`
    /// that issues at most `max_requests` requests (at least one).
    pub fn new(this_node_id: u32, this_port: u16, peer_node_id: u32, peer_port: u16, max_requests: u64) -> (r: Self)
        ensures
            r.this_node_id_spec() == this_node_id,
            r.this_port_spec() == this_port,
            r.peer_node_id_spec() == peer_node_id,
            r.peer_port_spec() == peer_port,
            r.max_requests_spec() == max_requests,
            r.issued() == 0,
            r.created_spec() == 0,
    {
        Pinger { this_node_id, this_port, peer_node_id, peer_port, max_requests, next_request_id: 0, created: 0 }
    }

    /// Issue a new request to the operating system of this node.
    pub fn handle_epr_request(&mut self, now: u64, node_id: u32, port: u16) -> (r: Result<Vec<Event>, SimError>)
        ensures
            !old(self).accepts_request(node_id, port) ==> r == Err::<Vec<Event>, SimError>(
                SimError::ProtocolViolation,
            ) && *final(self) == *old(self),
            old(self).accepts_request(node_id, port) ==> {
                &&& r is Ok
                &&& r.unwrap()@ == seq![old(self).next_request()]
                &&& final(self).issued() == old(self).issued() + 1
                &&& final(self).created_spec() == now
                &&& final(self).this_node_id_spec() == old(self).this_node_id_spec()
                &&& final(self).this_port_spec() == old(self).this_port_spec()
                &&& final(self).peer_node_id_spec() == old(self).peer_node_id_spec()
                &&& final(self).peer_port_spec() == old(self).peer_port_spec()
                &&& final(self).max_requests_spec() == old(self).max_requests_spec()
            },
    {
        if node_id != self.this_node_id || port != self.this_port || self.next_request_id == u64::MAX {
            return Err(SimError::ProtocolViolation);
        }
        self.created = now;
        self.next_request_id = self.next_request_id + 1;
        let epr = EprFiveTuple::new(
            self.this_node_id,
            self.this_port,
            self.peer_node_id,
            self.peer_port,
            self.next_request_id,
        );
        Ok(vec![Event::new(0, EventType::OsEvent(OsEventData::EprRequestApp(epr)))])
    }

    /// Handle the response to the last request: measure the local photon,
    /// issue the next request unless `max_requests` were issued, and record
    /// the round-trip time. A response addressed to the other end, without
    /// a memory cell, or older than the request is a protocol violation.
    pub fn handle_epr_response(&mut self, now: u64, data: EprResponseData) -> (r: Result<
        (Vec<Event>, RttSample),
        SimError,
    >)
        ensures
            *final(self) == *old(self),
            !old(self).accepts_response(now, data) ==> r == Err::<(Vec<Event>, RttSample), SimError>(
                SimError::ProtocolViolation,
            ),
            old(self).accepts_response(now, data) ==> {
                &&& r is Ok
                &&& r.unwrap().0@ == old(self).response_events(data)
                &&& r.unwrap().1 == old(self).rtt(now)
            },
    {
        if !data.is_source || now < self.created {
            return Err(SimError::ProtocolViolation);
        }
        let cell = match data.memory_cell {
            Some(c) => c,
            None => {
                return Err(SimError::ProtocolViolation);
            },
        };
        let mut events: Vec<Event> = Vec::new();
        events.push(
            Event::new(
                0,
                EventType::NodeEvent(
                    NodeEventData::EprFidelity(
                        EprFidelityData {
                            app_node_id: self.this_node_id,
                            port: self.this_port,
                            consume_node_id: self.this_node_id,
                            memory_cell: cell,
                        },
                    ),
                ),
            ),
        );
        if self.next_request_id < self.max_requests {
            events.push(
                Event::new(0, EventType::AppEvent(AppEventData::EprRequest(self.this_node_id, self.this_port))),
            );
        }
        let sample = RttSample {
            this_node_id: self.this_node_id,
            peer_node_id: self.peer_node_id,
            rtt_ns: now - self.created,
        };
        Ok((events, sample))
    }

    /// Dispatch an application event at its time.
    pub fn handle(&mut self, event: Event) -> (r: Result<(Vec<Event>, Vec<RttSample>), SimError>)
        ensures
            pinger_handled(*old(self), *final(self), event, r),
    {
        let now = event.time();
        match event.event_type {
            EventType::AppEvent(AppEventData::EprRequest(node_id, port)) => {
                match self.handle_epr_request(now, node_id, port) {
                    Ok(events) => {
                        let v: Vec<RttSample> = Vec::new();
                        assert(v@.len() == 0);
                        Ok((events, v))
                    },
                    Err(e) => Err(e),
                }
            },
            EventType::AppEvent(AppEventData::EprResponse(data)) => {
                match self.handle_epr_response(now, data) {
                    Ok((events, sample)) => {
                        let v = vec![sample];
                        assert(v@ =~= seq![sample]);
                        Ok((events, v))
                    },
                    Err(e) => Err(e),
                }
            },
            _ => Err(SimError::ProtocolViolation),
        }
    }

    /// The first request of the pinger, at time zero.
    pub fn initial(&self) -> (r: Vec<Event>)
        ensures
            r@ == seq![request_tick(self.this_node_id_spec(), self.this_port_spec())],
    {
        vec![Event::new(0, EventType::AppEvent(AppEventData::EprRequest(self.this_node_id, self.this_port)))]
    }
}

/// A response makes the pinger ask for one more request exactly while fewer
/// than `max_requests` were issued, so no request follows a response once
/// `max_requests` were issued.
pub proof fn lemma_pinger_requests_bounded(p: Pinger, data: EprResponseData)
    ensures
        (p.response_events(data).len() == 2) == (p.issued() < p.max_requests_spec()),
        p.response_events(data).len() == 2 ==> p.response_events(data)[1] == request_tick(
            p.this_node_id_spec(),
            p.this_port_spec(),
        ),
        p.response_events(data).len() <= 2,
{
}

} // verus!
