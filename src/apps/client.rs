//! Client: issues requests towards a server at random times, and finishes
//! each once the pair was measured here and the server is done with its end.

use crate::apps::AppSample;
use crate::error::SimError;
use crate::event::{
    AppEventData, EprFidelityData, EprFiveTuple, EprResponseData, Event, EventType, MemoryCellId,
    NodeEventData, OsEventData,
};
use vstd::prelude::*;

verus! {

/// A request of a client that is not finished yet.
#[derive(Debug, PartialEq, Eq, Clone, Copy, Structural)]
pub struct ClientRequest {
    pub request_id: u64,
    /// The local photon, once the response arrived and until it is measured.
    pub memory_cell: Option<MemoryCellId>,
    pub local_operations_done: bool,
    pub remote_operations_done: bool,
    /// When the request was issued.
    pub created: u64,
}

/// Issues requests from `this_node_id:this_port` to
/// `peer_node_id:peer_port`.
#[derive(Debug)]
pub struct Client {
    this_node_id: u32,
    this_port: u16,
    peer_node_id: u32,
    peer_port: u16,
    next_request_id: u64,
    first_delay_ns: u64,
    pending: Vec<ClientRequest>,
}

/// Index of the pending request `id`.
pub open spec fn request_at(pending: Seq<ClientRequest>, id: u64, j: int) -> bool {
    0 <= j < pending.len() && pending[j].request_id == id && forall|k: int| 0 <= k < j ==> (#[trigger] pending[k]).request_id != id
}

fn find(pending: &Vec<ClientRequest>, id: u64) -> (r: Option<usize>)
    ensures
        r is None <==> forall|k: int| 0 <= k < pending@.len() ==> (#[trigger] pending@[k]).request_id != id,
        r matches Some(j) ==> request_at(pending@, id, j as int),
{
    let mut j: usize = 0;
    while j < pending.len()
        invariant
            j <= pending@.len(),
            forall|k: int| 0 <= k < j ==> (#[trigger] pending@[k]).request_id != id,
        decreases pending@.len() - j,
    {
        if pending[j].request_id == id {
            return Some(j);
        }
        j = j + 1;
    }
    None
}

/// What `Client::handle_epr_request` does: a tick for this client issues
/// request `issued` now, plans the next tick after `next_delay_ns`, and
/// reports the pending count.
pub open spec fn requested(a: Client, b: Client, now: u64, node_id: u32, port: u16, next_delay_ns: u64, r: Result<(Vec<Event>, Vec<AppSample>), SimError>) -> bool {
    if node_id != a.this_node_id_spec() || port != a.this_port_spec() || a.issued() == u64::MAX {
        r == Err::<(Vec<Event>, Vec<AppSample>), SimError>(SimError::ProtocolViolation) && b == a
    } else {
        &&& r is Ok
        &&& b.issued() == a.issued() + 1
        &&& b.pending_spec() == a.pending_spec().push(
            ClientRequest { request_id: a.issued(), memory_cell: None, local_operations_done: false, remote_operations_done: false, created: now },
        )
        &&& r.unwrap().0@ == seq![
            Event {
                time: 0,
                event_type: EventType::OsEvent(
                    OsEventData::EprRequestApp(
                        EprFiveTuple {
                            source_node_id: node_id,
                            source_port: port,
                            target_node_id: a.peer_node_id_spec(),
                            target_port: a.peer_port_spec(),
                            request_id: a.issued(),
                        },
                    ),
                ),
                transfer: None,
            },
            Event { time: next_delay_ns, event_type: EventType::AppEvent(AppEventData::EprRequest(node_id, port)), transfer: None },
        ]
        &&& r.unwrap().1@ == seq![
            AppSample::PendingLen { node_id, port, server: false, len: (a.pending_spec().len() + 1) as u64 },
        ]
    }
}

/// What `Client::handle_epr_response` does.
pub open spec fn responded(a: Client, b: Client, data: EprResponseData, local_ops_ns: u64, r: Result<Vec<Event>, SimError>) -> bool {
    &&& (r is Err ==> b == a)
    &&& (r is Ok <==> a.owns(data.epr) && data.is_source && exists|j: int|
                request_at(a.pending_spec(), data.epr.request_id, j) && a.pending_spec()[j].memory_cell is None
                    && !a.pending_spec()[j].local_operations_done)
    &&& (r is Ok && data.memory_cell is Some ==> r.unwrap()@ == seq![
                Event {
                    time: local_ops_ns,
                    event_type: EventType::AppEvent(AppEventData::LocalComplete(data.epr, true)),
                    transfer: None,
                },
            ] && exists|j: int| #[trigger] request_at(a.pending_spec(), data.epr.request_id, j) && b.pending_spec()
                == a.pending_spec().update(j, ClientRequest { memory_cell: data.memory_cell, ..a.pending_spec()[j] }))
    &&& (r is Ok && data.memory_cell is None ==> r.unwrap()@.len() == 0 && exists|j: int|
                #[trigger] request_at(a.pending_spec(), data.epr.request_id, j) && b.pending_spec() == a.pending_spec().remove(j))
}

/// What `Client::handle_local_complete` does.
pub open spec fn locally_done(a: Client, b: Client, now: u64, epr: EprFiveTuple, r: Result<(Vec<Event>, Vec<AppSample>), SimError>) -> bool {
    &&& (r is Err ==> b == a)
    &&& (r is Ok <==> a.owns(epr) && exists|j: int|
                request_at(a.pending_spec(), epr.request_id, j) && a.pending_spec()[j].memory_cell is Some
                    && !a.pending_spec()[j].local_operations_done)
    &&& (r matches Ok((evs, _)) ==> exists|j: int|
                #[trigger] request_at(a.pending_spec(), epr.request_id, j) && evs@ == seq![
                    Event {
                        time: 0,
                        event_type: EventType::NodeEvent(
                            NodeEventData::EprFidelity(
                                EprFidelityData {
                                    app_node_id: a.this_node_id_spec(),
                                    port: a.this_port_spec(),
                                    consume_node_id: a.this_node_id_spec(),
                                    memory_cell: a.pending_spec()[j].memory_cell.unwrap(),
                                },
                            ),
                        ),
                        transfer: None,
                    },
                ] && if a.pending_spec()[j].remote_operations_done {
                    b.pending_spec() == a.pending_spec().remove(j)
                } else {
                    b.pending_spec() == a.pending_spec().update(
                        j,
                        ClientRequest { memory_cell: None, local_operations_done: true, ..a.pending_spec()[j] },
                    )
                })
}

/// What `Client::handle_remote_complete` does.
pub open spec fn remotely_done(a: Client, b: Client, now: u64, epr: EprFiveTuple, r: Result<Vec<AppSample>, SimError>) -> bool {
    &&& (r is Err ==> b == a)
    &&& (r is Ok <==> a.owns(epr) && exists|j: int|
                request_at(a.pending_spec(), epr.request_id, j) && !a.pending_spec()[j].remote_operations_done)
    &&& (r is Ok ==> exists|j: int|
                #[trigger] request_at(a.pending_spec(), epr.request_id, j) && if a.pending_spec()[j].local_operations_done {
                    b.pending_spec() == a.pending_spec().remove(j)
                } else {
                    b.pending_spec() == a.pending_spec().update(
                        j,
                        ClientRequest { remote_operations_done: true, ..a.pending_spec()[j] },
                    )
                })
}

/// What `Client::handle` does with an event.
pub open spec fn client_handled(a: Client, b: Client, event: Event, delay_ns: u64, r: Result<(Vec<Event>, Vec<AppSample>), SimError>) -> bool {
            match event.event_type {
                EventType::AppEvent(AppEventData::EprRequest(n, p)) => requested(a, b, event.time, n, p, delay_ns, r),
                EventType::AppEvent(AppEventData::EprResponse(d)) => exists|r1: Result<Vec<Event>, SimError>|
                    #[trigger] responded(a, b, d, delay_ns, r1) && match r1 {
                        Ok(e) => r is Ok && r.unwrap().0@ == e@ && r.unwrap().1@.len() == 0,
                        Err(x) => r == Err::<(Vec<Event>, Vec<AppSample>), SimError>(x),
                    },
                EventType::AppEvent(AppEventData::LocalComplete(epr, _)) => locally_done(a, b, event.time, epr, r),
                EventType::AppEvent(AppEventData::RemoteComplete(epr)) => exists|r1: Result<Vec<AppSample>, SimError>|
                    #[trigger] remotely_done(a, b, event.time, epr, r1) && match r1 {
                        Ok(sm) => r is Ok && r.unwrap().0@.len() == 0 && r.unwrap().1@ == sm@,
                        Err(x) => r == Err::<(Vec<Event>, Vec<AppSample>), SimError>(x),
                    },
                _ => r == Err::<(Vec<Event>, Vec<AppSample>), SimError>(SimError::ProtocolViolation) && b == a,
            }
}

impl Client {
    pub closed spec fn pending_spec(&self) -> Seq<ClientRequest> {
        self.pending@
    }

    pub closed spec fn issued(&self) -> u64 {
        self.next_request_id
    }

    pub closed spec fn this_node_id_spec(&self) -> u32 {
        self.this_node_id
    }

    pub closed spec fn this_port_spec(&self) -> u16 {
        self.this_port
    }

    pub closed spec fn peer_node_id_spec(&self) -> u32 {
        self.peer_node_id
    }

    pub closed spec fn peer_port_spec(&self) -> u16 {
        self.peer_port
    }

    pub closed spec fn first_delay_spec(&self) -> u64 {
        self.first_delay_ns
    }

    /// The request is for this client: from here to its peer.
    pub closed spec fn owns(&self, epr: EprFiveTuple) -> bool {
        epr.source_node_id == self.this_node_id && epr.source_port == self.this_port && epr.target_node_id
            == self.peer_node_id && epr.target_port == self.peer_port
    }

    /// A client whose first request comes after `first_delay_ns`.
    pub fn new(this_node_id: u32, this_port: u16, peer_node_id: u32, peer_port: u16, first_delay_ns: u64) -> (r: Self)
        ensures
            r.pending_spec().len() == 0,
            r.issued() == 0,
            r.this_node_id_spec() == this_node_id,
            r.this_port_spec() == this_port,
            r.peer_node_id_spec() == peer_node_id,
            r.peer_port_spec() == peer_port,
            r.first_delay_spec() == first_delay_ns,
    {
        Client { this_node_id, this_port, peer_node_id, peer_port, next_request_id: 0, first_delay_ns, pending: Vec::new() }
    }

    fn pending_len(&self) -> (r: AppSample)
        ensures
            r == (AppSample::PendingLen { node_id: self.this_node_id, port: self.this_port, server: false, len: self.pending@.len() as u64 }),
    {
        AppSample::PendingLen { node_id: self.this_node_id, port: self.this_port, server: false, len: self.pending.len() as u64 }
    }

    /// Issue a request now, and plan the next one after `next_delay_ns`.
    pub fn handle_epr_request(&mut self, now: u64, node_id: u32, port: u16, next_delay_ns: u64) -> (r: Result<(Vec<Event>, Vec<AppSample>), SimError>)
        ensures
            requested(*old(self), *final(self), now, node_id, port, next_delay_ns, r),

    {
        if node_id != self.this_node_id || port != self.this_port || self.next_request_id == u64::MAX {
            return Err(SimError::ProtocolViolation);
        }
        let epr = EprFiveTuple::new(self.this_node_id, self.this_port, self.peer_node_id, self.peer_port, self.next_request_id);
        self.pending.push(
            ClientRequest {
                request_id: self.next_request_id,
                memory_cell: None,
                local_operations_done: false,
                remote_operations_done: false,
                created: now,
            },
        );
        self.next_request_id = self.next_request_id + 1;
        let events = vec![
            Event::new(0, EventType::OsEvent(OsEventData::EprRequestApp(epr))),
            Event::new(next_delay_ns, EventType::AppEvent(AppEventData::EprRequest(self.this_node_id, self.this_port))),
        ];
        let samples = vec![self.pending_len()];
        assert(events@ =~= seq![events@[0], events@[1]]);
        assert(samples@ =~= seq![samples@[0]]);
        Ok((events, samples))
    }

    /// The response to a request: with a pair, start the local operations,
    /// which last `local_ops_ns`; without, drop the request.
    pub fn handle_epr_response(&mut self, data: EprResponseData, local_ops_ns: u64) -> (r: Result<Vec<Event>, SimError>)
        ensures
            responded(*old(self), *final(self), data, local_ops_ns, r),

    {
        if !(data.epr.source_node_id == self.this_node_id && data.epr.source_port == self.this_port
            && data.epr.target_node_id == self.peer_node_id && data.epr.target_port == self.peer_port) || !data.is_source {
            return Err(SimError::ProtocolViolation);
        }
        let j = match find(&self.pending, data.epr.request_id) {
            Some(j) => j,
            None => {
                return Err(SimError::ProtocolViolation);
            },
        };
        if self.pending[j].memory_cell.is_some() || self.pending[j].local_operations_done {
            return Err(SimError::ProtocolViolation);
        }
        assert(request_at(old(self).pending_spec(), data.epr.request_id, j as int));
        match data.memory_cell {
            Some(cell) => {
                self.pending[j].memory_cell = Some(cell);
                assert(self.pending_spec() == old(self).pending_spec().update(j as int, ClientRequest { memory_cell: data.memory_cell, ..old(self).pending_spec()[j as int] }));
                let evs = vec![Event::new(local_ops_ns, EventType::AppEvent(AppEventData::LocalComplete(data.epr, true)))];
                assert(evs@ =~= seq![Event { time: local_ops_ns, event_type: EventType::AppEvent(AppEventData::LocalComplete(data.epr, true)), transfer: None }]);
                Ok(evs)
            },
            None => {
                let _ = self.pending.remove(j);
                Ok(Vec::new())
            },
        }
    }

    /// Remove request `j` and measure its latency.
    fn finish(&mut self, now: u64, j: usize) -> (r: Vec<AppSample>)
        requires
            j < old(self).pending_spec().len(),
        ensures
            final(self).pending_spec() == old(self).pending_spec().remove(j as int),
            final(self).issued() == old(self).issued(),
            final(self).this_node_id_spec() == old(self).this_node_id_spec(),
            final(self).this_port_spec() == old(self).this_port_spec(),
            forall|e: EprFiveTuple| final(self).owns(e) == old(self).owns(e),
    {
        let request = self.pending.remove(j);
        let latency = if now >= request.created {
            now - request.created
        } else {
            0
        };
        vec![
            AppSample::RequestLatency { node_id: self.this_node_id, port: self.this_port, latency_ns: latency },
            self.pending_len(),
        ]
    }

    /// The local operations of a request are done: measure the photon, and
    /// finish the request if the server is done too.
    pub fn handle_local_complete(&mut self, now: u64, epr: EprFiveTuple) -> (r: Result<(Vec<Event>, Vec<AppSample>), SimError>)
        ensures
            locally_done(*old(self), *final(self), now, epr, r),

    {
        if !(epr.source_node_id == self.this_node_id && epr.source_port == self.this_port && epr.target_node_id
            == self.peer_node_id && epr.target_port == self.peer_port) {
            return Err(SimError::ProtocolViolation);
        }
        let j = match find(&self.pending, epr.request_id) {
            Some(j) => j,
            None => {
                return Err(SimError::ProtocolViolation);
            },
        };
        let request = self.pending[j];
        assert(request_at(old(self).pending_spec(), epr.request_id, j as int));
        if request.local_operations_done {
            return Err(SimError::ProtocolViolation);
        }
        let cell = match request.memory_cell {
            Some(c) => c,
            None => {
                return Err(SimError::ProtocolViolation);
            },
        };
        let events = vec![
            Event::new(
                0,
                EventType::NodeEvent(
                    NodeEventData::EprFidelity(
                        EprFidelityData {
                            app_node_id: self.this_node_id,
                            port: self.this_port,
                            consume_node_id: self.this_node_id,
                            memory_cell: cell,
                        },
                    ),
                ),
            ),
        ];
        if request.remote_operations_done {
            let samples = self.finish(now, j);
            assert(self.pending_spec() == old(self).pending_spec().remove(j as int));
            assert(events@ =~= seq![
                Event {
                    time: 0,
                    event_type: EventType::NodeEvent(
                        NodeEventData::EprFidelity(
                            EprFidelityData {
                                app_node_id: old(self).this_node_id_spec(),
                                port: old(self).this_port_spec(),
                                consume_node_id: old(self).this_node_id_spec(),
                                memory_cell: old(self).pending_spec()[j as int].memory_cell.unwrap(),
                            },
                        ),
                    ),
                    transfer: None,
                },
            ]);
            Ok((events, samples))
        } else {
            self.pending.set(j, ClientRequest { memory_cell: None, local_operations_done: true, ..request });
            assert(self.pending_spec() == old(self).pending_spec().update(
                j as int,
                ClientRequest { memory_cell: None, local_operations_done: true, ..old(self).pending_spec()[j as int] },
            ));
            assert(events@ =~= seq![
                Event {
                    time: 0,
                    event_type: EventType::NodeEvent(
                        NodeEventData::EprFidelity(
                            EprFidelityData {
                                app_node_id: old(self).this_node_id_spec(),
                                port: old(self).this_port_spec(),
                                consume_node_id: old(self).this_node_id_spec(),
                                memory_cell: old(self).pending_spec()[j as int].memory_cell.unwrap(),
                            },
                        ),
                    ),
                    transfer: None,
                },
            ]);
            Ok((events, Vec::new()))
        }
    }

    /// The server is done with its end of a request: finish the request if
    /// the local operations are done too.
    pub fn handle_remote_complete(&mut self, now: u64, epr: EprFiveTuple) -> (r: Result<Vec<AppSample>, SimError>)
        ensures
            remotely_done(*old(self), *final(self), now, epr, r),

    {
        if !(epr.source_node_id == self.this_node_id && epr.source_port == self.this_port && epr.target_node_id
            == self.peer_node_id && epr.target_port == self.peer_port) {
            return Err(SimError::ProtocolViolation);
        }
        let j = match find(&self.pending, epr.request_id) {
            Some(j) => j,
            None => {
                return Err(SimError::ProtocolViolation);
            },
        };
        let request = self.pending[j];
        assert(request_at(old(self).pending_spec(), epr.request_id, j as int));
        if request.remote_operations_done {
            return Err(SimError::ProtocolViolation);
        }
        if request.local_operations_done {
            let samples = self.finish(now, j);
            assert(self.pending_spec() == old(self).pending_spec().remove(j as int));
            Ok(samples)
        } else {
            self.pending.set(j, ClientRequest { remote_operations_done: true, ..request });
            assert(self.pending_spec() == old(self).pending_spec().update(
                j as int,
                ClientRequest { remote_operations_done: true, ..old(self).pending_spec()[j as int] },
            ));
            Ok(Vec::new())
        }
    }

    /// Dispatch an application event; `delay_ns` is the random delay that
    /// the event needs: until the next request, or the duration of the local
    /// operations.
    pub fn handle(&mut self, event: Event, delay_ns: u64) -> (r: Result<(Vec<Event>, Vec<AppSample>), SimError>)
        ensures
            client_handled(*old(self), *final(self), event, delay_ns, r),
    {
        let now = event.time;
        match event.event_type {
            EventType::AppEvent(AppEventData::EprRequest(node_id, port)) => self.handle_epr_request(now, node_id, port, delay_ns),
            EventType::AppEvent(AppEventData::EprResponse(data)) => match self.handle_epr_response(data, delay_ns) {
                Ok(events) => Ok((events, Vec::new())),
                Err(e) => Err(e),
            },
            EventType::AppEvent(AppEventData::LocalComplete(epr, _)) => self.handle_local_complete(now, epr),
            EventType::AppEvent(AppEventData::RemoteComplete(epr)) => match self.handle_remote_complete(now, epr) {
                Ok(samples) => Ok((Vec::new(), samples)),
                Err(e) => Err(e),
            },
            _ => Err(SimError::ProtocolViolation),
        }
    }

    /// The first request, after the delay given at creation.
    pub fn initial(&self) -> (r: Vec<Event>)
        ensures
            r@ == seq![
                Event {
                    time: self.first_delay_spec(),
                    event_type: EventType::AppEvent(AppEventData::EprRequest(self.this_node_id_spec(), self.this_port_spec())),
                    transfer: None,
                },
            ],
    {
        vec![Event::new(self.first_delay_ns, EventType::AppEvent(AppEventData::EprRequest(self.this_node_id, self.this_port)))]
    }
}

} // verus!
