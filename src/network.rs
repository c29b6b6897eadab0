//! The network: nodes, the pair register and the logical topology, and the
//! dispatch of events to them.

use crate::apps::AppSample;
use crate::epr_register::EprRegister;
use crate::error::SimError;
use crate::event::{
    AppEventData, EprGeneratedData, EprNotifiedData, Event, EventType, NodeEventData, OsEventData, Transfer,
};
use crate::logical_topology::{LogicalLink, LogicalTopology};
use crate::nic::Role;
use crate::nic::{first_holding, holds_none, MemoryCell};
use crate::node::{cells_of, lemma_new_node_holds_nothing, nics_hold, node_holds, LatencySample, Node};
use vstd::prelude::*;

verus! {

/// A measurement made while handling an event. Real-valued quantities are
/// left to the caller, which gets what it needs to compute them.
#[derive(Debug, PartialEq, Eq, Clone, Copy, Structural)]
pub enum Sample {
    /// Occupied and total cells of the NIC of `node_id` towards
    /// `peer_node_id`, after a new pair arrived.
    Occupancy { node_id: u32, peer_node_id: u32, occupied: u64, cells: u64 },
    /// A pair was generated by `tx_node_id` with the given fidelity.
    GenFidelity { tx_node_id: u32, fidelity_bits: u64 },
    /// A measurement of an application.
    App(AppSample),
    /// Latency of an end-to-end request at its source.
    Latency(LatencySample),
    /// A photon was measured at `consume_node_id` for the application at
    /// `app_node_id:port`; the pair had fidelity `fidelity_bits` at time
    /// `updated_ns`, and was measured at `now_ns`.
    Fidelity { app_node_id: u32, port: u16, consume_node_id: u32, updated_ns: u64, fidelity_bits: u64, now_ns: u64 },
}

/// What the caller supplies for one event: outcomes of random draws and
/// real-valued lookups, which this library does not make.
#[derive(Debug, PartialEq, Eq, Clone, Copy, Structural)]
pub struct Draws {
    /// Delay until the next firing of the generator of the event.
    pub next_generation_ns: u64,
    /// Fidelity at creation of the pair generated by the event; None if
    /// the transmitter cannot make pairs for the link's ends, in which case
    /// no pair is made.
    pub fidelity_bits: Option<u64>,
    /// Number of X/Z corrections at the target of a request (0, 1 or 2).
    pub corrections: u8,
    /// Delay that a client or server application draws for the event.
    pub app_delay_ns: u64,
    /// Outcome of the entanglement swapping at a node in the middle of a
    /// path.
    pub swap_ok: bool,
}

/// The node that an application event is for.
pub open spec fn app_node(data: AppEventData) -> u32 {
    match data {
        AppEventData::EprRequest(node_id, _) => node_id,
        AppEventData::EprResponse(d) => if d.is_source {
            d.epr.source_node_id
        } else {
            d.epr.target_node_id
        },
        AppEventData::LocalComplete(epr, at_source) => if at_source {
            epr.source_node_id
        } else {
            epr.target_node_id
        },
        AppEventData::RemoteComplete(epr) => epr.source_node_id,
    }
}

fn app_node_exec(data: &AppEventData) -> (r: u32)
    ensures
        r == app_node(*data),
{
    match data {
        AppEventData::EprRequest(node_id, _) => *node_id,
        AppEventData::EprResponse(d) => if d.is_source {
            d.epr.source_node_id
        } else {
            d.epr.target_node_id
        },
        AppEventData::LocalComplete(epr, at_source) => if *at_source {
            epr.source_node_id
        } else {
            epr.target_node_id
        },
        AppEventData::RemoteComplete(epr) => epr.source_node_id,
    }
}

/// The event that fires a generator after `delay` nanoseconds.
pub open spec fn generation(delay: u64, g: EprGeneratedData) -> Event {
    Event { time: delay, event_type: EventType::NodeEvent(NodeEventData::EprGenerated(g)), transfer: None }
}

/// The notification of a new pair to one of its ends.
pub open spec fn notified(this_node_id: u32, peer_node_id: u32, role: Role, epr_pair_id: u64) -> Event {
    Event {
        time: 0,
        event_type: EventType::NodeEvent(
            NodeEventData::EprNotified(EprNotifiedData { this_node_id, peer_node_id, role, epr_pair_id }),
        ),
        transfer: None,
    }
}

/// Both ends of link `l` have a NIC towards each other with the link's
/// memory qubits: the master's in the master role, the slave's in the slave
/// role.
pub open spec fn link_nics(nodes: Seq<Node>, l: LogicalLink) -> bool {
    &&& l.master < nodes.len()
    &&& l.slave < nodes.len()
    &&& cells_of(nodes[l.master as int].nics_spec(Role::Master), l.slave) matches Some(c) && c.len() == l.weight.memory_qubits
    &&& cells_of(nodes[l.slave as int].nics_spec(Role::Slave), l.master) matches Some(c) && c.len() == l.weight.memory_qubits
}

/// Node `u` has a NIC towards `p` in the given role exactly when one of the
/// first `k` links joins them in that direction.
pub open spec fn nics_of_links(nodes: Seq<Node>, links: Seq<LogicalLink>, k: int) -> bool {
    forall|u: u32, p: u32|
        u < nodes.len() ==> {
            &&& (#[trigger] cells_of(nodes[u as int].nics_spec(Role::Master), p) is Some <==> exists|q: int|
                0 <= q < k && links[q].master == u && links[q].slave == p)
            &&& (cells_of(nodes[u as int].nics_spec(Role::Slave), p) is Some <==> exists|q: int|
                0 <= q < k && links[q].slave == u && links[q].master == p)
        }
}

/// Pair `x` is alive in the register, and node `i` has not consumed its end.
pub open spec fn pair_live_at(reg: Map<u64, crate::epr_register::EprPair>, x: u64, i: u32) -> bool {
    reg.contains_key(x) && (reg[x].alice_id == Some(i) || reg[x].bob_id == Some(i))
}

/// Owns the nodes, the pair register and the logical topology.
pub struct Network {
    nodes: Vec<Node>,
    register: EprRegister,
    topology: LogicalTopology,
    /// Classical-channel delay between any two nodes, in nanoseconds.
    latency_ns: Vec<Vec<u64>>,
}

impl Network {
    pub closed spec fn nodes_spec(&self) -> Seq<Node> {
        self.nodes@
    }

    pub closed spec fn register_spec(&self) -> EprRegister {
        self.register
    }

    pub closed spec fn links_spec(&self) -> Seq<LogicalLink> {
        self.topology.links_spec()
    }

    pub closed spec fn latency_spec(&self, a: u32, b: u32) -> u64 {
        self.latency_ns@[a as int]@[b as int]
    }

    /// Node `i` has identifier `i`; the nodes, register and topology are
    /// well formed; there is a delay for every pair of nodes.
    pub closed spec fn wf(&self) -> bool {
        &&& self.topology.wf()
        &&& self.register.wf()
        &&& self.nodes@.len() == self.topology.num_nodes_spec()
        &&& forall|i: int| 0 <= i < self.nodes@.len() ==> (#[trigger] self.nodes@[i]).wf() && self.nodes@[i].node_id_spec() == i
        &&& self.latency_ns@.len() == self.nodes@.len()
        &&& forall|i: int| 0 <= i < self.latency_ns@.len() ==> (#[trigger] self.latency_ns@[i])@.len() == self.nodes@.len()
        &&& forall|i: int, x: u64| 0 <= i < self.nodes@.len() && #[trigger] node_holds(self.nodes@[i], x) ==> pair_live_at(self.register@, x, i as u32)
    }

    /// A network on a logical topology: one node per node of the topology,
    /// and for each link a master NIC and a slave NIC with the link's memory
    /// qubits. `latency_ns[a][b]` is the classical delay from `a` to `b`.
    pub fn new(topology: LogicalTopology, latency_ns: Vec<Vec<u64>>, correction_ns: u64) -> (r: Result<Self, SimError>)
        requires
            topology.wf(),
        ensures
            r is Ok <==> correction_ns <= u64::MAX / 2 && latency_ns@.len() == topology.num_nodes_spec() && forall|i: int|
                0 <= i < latency_ns@.len() ==> (#[trigger] latency_ns@[i])@.len() == topology.num_nodes_spec(),
            r matches Err(e) ==> e == SimError::ConfigInvalid,
            r matches Ok(net) ==> net.wf() && net.nodes_spec().len() == topology.num_nodes_spec() && net.links_spec()
                == topology.links_spec() && net.register_spec()@.len() == 0 && forall|k: int|
                0 <= k < topology.links_spec().len() ==> #[trigger] link_nics(net.nodes_spec(), topology.links_spec()[k]),
            r matches Ok(net) ==> nics_of_links(net.nodes_spec(), topology.links_spec(), topology.links_spec().len() as int),
            r matches Ok(net) ==> forall|u: int, x: u64| 0 <= u < net.nodes_spec().len() ==> !#[trigger] node_holds(net.nodes_spec()[u], x),
    {
        let n = topology.num_nodes() as usize;
        if correction_ns > u64::MAX / 2 || latency_ns.len() != n {
            return Err(SimError::ConfigInvalid);
        }
        let mut i: usize = 0;
        while i < n
            invariant
                n == latency_ns@.len(),
                i <= n,
                forall|k: int| 0 <= k < i ==> (#[trigger] latency_ns@[k])@.len() == n,
            decreases n - i,
        {
            if latency_ns[i].len() != n {
                return Err(SimError::ConfigInvalid);
            }
            i = i + 1;
        }
        let mut nodes: Vec<Node> = Vec::new();
        let mut id: usize = 0;
        while id < n
            invariant
                n == topology.num_nodes_spec(),
                id <= n,
                correction_ns <= u64::MAX / 2,
                nodes@.len() == id,
                forall|k: int| 0 <= k < id ==> (#[trigger] nodes@[k]).wf() && nodes@[k].node_id_spec() == k,
                forall|k: int, x: u64| 0 <= k < id ==> !#[trigger] node_holds(nodes@[k], x),
                forall|k: int| 0 <= k < id ==> (#[trigger] nodes@[k]).nics_spec(Role::Master).len() == 0
                    && nodes@[k].nics_spec(Role::Slave).len() == 0,
            decreases n - id,
        {
            let node = Node::new(id as u32, correction_ns);
            proof {
                assert forall|x: u64| !node_holds(node, x) by {
                    lemma_new_node_holds_nothing(node, x);
                }
            }
            nodes.push(node);
            id = id + 1;
        }
        let links = topology.links();
        proof {
            assert forall|u: u32, p: u32| u < nodes@.len() implies {
                &&& (#[trigger] cells_of(nodes@[u as int].nics_spec(Role::Master), p) is Some <==> exists|q: int|
                    0 <= q < 0 && links@[q].master == u && links@[q].slave == p)
                &&& (cells_of(nodes@[u as int].nics_spec(Role::Slave), p) is Some <==> exists|q: int|
                    0 <= q < 0 && links@[q].slave == u && links@[q].master == p)
            } by {
                assert(!exists|i: int| crate::node::peer_index(nodes@[u as int].nics_spec(Role::Master), p, i));
                assert(!exists|i: int| crate::node::peer_index(nodes@[u as int].nics_spec(Role::Slave), p, i));
            }
        }
        let mut k: usize = 0;
        while k < links.len()
            invariant
                topology.wf(),
                links@ == topology.links_spec(),
                n == topology.num_nodes_spec(),
                nodes@.len() == n,
                forall|q: int| 0 <= q < n ==> (#[trigger] nodes@[q]).wf() && nodes@[q].node_id_spec() == q,
                forall|q: int, x: u64| 0 <= q < n ==> !#[trigger] node_holds(nodes@[q], x),
                k <= links@.len(),
                forall|q: int| 0 <= q < k ==> #[trigger] link_nics(nodes@, links@[q]),
                nics_of_links(nodes@, links@, k as int),
            decreases links@.len() - k,
        {
            let l = links[k];
            proof {
                crate::logical_topology::lemma_link_in_range(&topology, k as int);
            }
            let ghost n0 = nodes@;
            nodes[l.master as usize].add_nic(l.slave, Role::Master, l.weight.memory_qubits);
            let ghost n1 = nodes@;
            nodes[l.slave as usize].add_nic(l.master, Role::Slave, l.weight.memory_qubits);
            proof {
                assert forall|q: int| 0 <= q < k + 1 implies #[trigger] link_nics(nodes@, links@[q]) by {
                    if q < k {
                        let lq = links@[q];
                        crate::logical_topology::lemma_link_in_range(&topology, q);
                        crate::logical_topology::lemma_links_distinct(&topology, q, k as int);
                        assert(link_nics(n0, lq));
                        if lq.master == l.master {
                            assert(lq.slave != l.slave);
                        }
                        if lq.slave == l.slave {
                            assert(lq.master != l.master);
                        }
                        assert(cells_of(nodes@[lq.master as int].nics_spec(Role::Master), lq.slave) == cells_of(
                            n0[lq.master as int].nics_spec(Role::Master),
                            lq.slave,
                        ));
                        assert(cells_of(nodes@[lq.slave as int].nics_spec(Role::Slave), lq.master) == cells_of(
                            n0[lq.slave as int].nics_spec(Role::Slave),
                            lq.master,
                        ));
                    } else {
                        assert(cells_of(nodes@[l.master as int].nics_spec(Role::Master), l.slave) == cells_of(
                            n1[l.master as int].nics_spec(Role::Master),
                            l.slave,
                        ));
                    }
                }
                assert forall|u: u32, p: u32| u < nodes@.len() implies {
                    &&& (#[trigger] cells_of(nodes@[u as int].nics_spec(Role::Master), p) is Some <==> exists|q: int|
                        0 <= q < k + 1 && links@[q].master == u && links@[q].slave == p)
                    &&& (cells_of(nodes@[u as int].nics_spec(Role::Slave), p) is Some <==> exists|q: int|
                        0 <= q < k + 1 && links@[q].slave == u && links@[q].master == p)
                } by {
                    assert(cells_of(n0[u as int].nics_spec(Role::Master), p) is Some <==> exists|q: int|
                        0 <= q < k && links@[q].master == u && links@[q].slave == p);
                    if u == l.master && p == l.slave {
                        assert(links@[k as int].master == u && links@[k as int].slave == p);
                    } else {
                        assert(cells_of(nodes@[u as int].nics_spec(Role::Master), p) == cells_of(n0[u as int].nics_spec(Role::Master), p));
                    }
                    if u == l.slave && p == l.master {
                        assert(links@[k as int].slave == u && links@[k as int].master == p);
                    } else {
                        assert(cells_of(nodes@[u as int].nics_spec(Role::Slave), p) == cells_of(n0[u as int].nics_spec(Role::Slave), p));
                    }
                }
                assert forall|q: int, x: u64| 0 <= q < n implies !#[trigger] node_holds(nodes@[q], x) by {
                    if node_holds(nodes@[q], x) {
                        if q != l.slave {
                            assert(nodes@[q] == n1[q]);
                        }
                        assert(node_holds(n1[q], x));
                        if q != l.master {
                            assert(n1[q] == n0[q]);
                        }
                    }
                }
            }
            k = k + 1;
        }
        let net = Network { nodes, register: EprRegister::new(), topology, latency_ns };
        Ok(net)
    }
}


/// True if some link has the generator that `g` names.
fn find_link(links: &Vec<LogicalLink>, g: EprGeneratedData) -> (r: bool)
    ensures
        r == exists|k: int|
            0 <= k < links@.len() && (#[trigger] links@[k]).master == g.master_node_id && links@[k].slave
                == g.slave_node_id && links@[k].weight.tx == g.tx_node_id,
{
    let mut k: usize = 0;
    while k < links.len()
        invariant
            k <= links@.len(),
            forall|q: int|
                0 <= q < k ==> !((#[trigger] links@[q]).master == g.master_node_id && links@[q].slave
                    == g.slave_node_id && links@[q].weight.tx == g.tx_node_id),
        decreases links@.len() - k,
    {
        let l = links[k];
        if l.master == g.master_node_id && l.slave == g.slave_node_id && l.weight.tx == g.tx_node_id {
            return true;
        }
        k = k + 1;
    }
    false
}

/// The generator event of link `k`.
pub open spec fn link_generator(l: LogicalLink) -> EprGeneratedData {
    EprGeneratedData { tx_node_id: l.weight.tx, master_node_id: l.master, slave_node_id: l.slave }
}

impl Network {
    /// The first firing of every generator, link `k` after `first_delays_ns[k]`,
    /// and the first events of every application.
    pub fn initial(&self, first_delays_ns: &Vec<u64>) -> (r: Result<Vec<Event>, SimError>)
        requires
            self.wf(),
        ensures
            r is Ok <==> first_delays_ns@.len() == self.links_spec().len(),
            r matches Err(e) ==> e == SimError::ConfigInvalid,
            r matches Ok(evs) ==> evs@.len() >= self.links_spec().len() && forall|k: int|
                0 <= k < self.links_spec().len() ==> #[trigger] evs@[k] == generation(
                    first_delays_ns@[k],
                    link_generator(self.links_spec()[k]),
                ),
    {
        let links = self.topology.links();
        if first_delays_ns.len() != links.len() {
            return Err(SimError::ConfigInvalid);
        }
        let mut events: Vec<Event> = Vec::new();
        let mut k: usize = 0;
        while k < links.len()
            invariant
                links@ == self.links_spec(),
                first_delays_ns@.len() == links@.len(),
                k <= links@.len(),
                events@.len() == k,
                forall|q: int| 0 <= q < k ==> #[trigger] events@[q] == generation(first_delays_ns@[q], link_generator(links@[q])),
            decreases links@.len() - k,
        {
            let l = links[k];
            events.push(
                Event::new(
                    first_delays_ns[k],
                    EventType::NodeEvent(
                        NodeEventData::EprGenerated(
                            EprGeneratedData { tx_node_id: l.weight.tx, master_node_id: l.master, slave_node_id: l.slave },
                        ),
                    ),
                ),
            );
            k = k + 1;
        }
        let mut i: usize = 0;
        while i < self.nodes.len()
            invariant
                i <= self.nodes@.len(),
                events@.len() >= links@.len(),
                forall|q: int| 0 <= q < links@.len() ==> #[trigger] events@[q] == generation(first_delays_ns@[q], link_generator(links@[q])),
            decreases self.nodes@.len() - i,
        {
            let mut more = self.nodes[i].initial();
            let ghost e0 = events@;
            events.append(&mut more);
            proof {
                assert forall|q: int| 0 <= q < links@.len() implies #[trigger] events@[q] == generation(first_delays_ns@[q], link_generator(links@[q])) by {
                    assert(events@[q] == e0[q]);
                }
            }
            i = i + 1;
        }
        Ok(events)
    }

    /// Number of nodes.
    pub fn num_nodes(&self) -> (r: usize)
        ensures
            r == self.nodes_spec().len(),
    {
        self.nodes.len()
    }

    /// The node with identifier `id`.
    pub fn node(&self, id: u32) -> (r: Option<&Node>)
        ensures
            r is Some <==> id < self.nodes_spec().len(),
            r matches Some(n) ==> *n == self.nodes_spec()[id as int],
    {
        if (id as usize) < self.nodes.len() {
            Some(&self.nodes[id as usize])
        } else {
            None
        }
    }

    /// Mutable access to node `id`, for adding applications.
    pub fn add_application(&mut self, id: u32, app: crate::node::Application, port: u16) -> (r: bool)
        requires
            old(self).wf(),
        ensures
            final(self).wf(),
            final(self).links_spec() == old(self).links_spec(),
            final(self).nodes_spec().len() == old(self).nodes_spec().len(),
            r == (id < old(self).nodes_spec().len() && !old(self).nodes_spec()[id as int].ports_spec().contains(port)),
            r ==> final(self).nodes_spec()[id as int].ports_spec() == old(self).nodes_spec()[id as int].ports_spec().push(port),
            r ==> final(self).nodes_spec()[id as int].apps_spec() == old(self).nodes_spec()[id as int].apps_spec().push(
                crate::node::AppSlot { port, app },
            ),
            r ==> forall|k: int| 0 <= k < old(self).nodes_spec().len() && k != id ==> #[trigger] final(self).nodes_spec()[k]
                == old(self).nodes_spec()[k],
            !r ==> final(self).nodes_spec() =~= old(self).nodes_spec(),
            final(self).register_spec() == old(self).register_spec(),
    {
        if (id as usize) >= self.nodes.len() {
            return false;
        }
        let r = self.nodes[id as usize].add_application(app, port);
        r
    }

    /// Handle an event at time `now`. A message that has not crossed the
    /// classical channel yet is sent again after the delay between its ends;
    /// otherwise the event goes to the node it is for, or, for a generator,
    /// a new pair is registered and notified to its ends, and the generator
    /// fires again after `draws.next_generation_ns`.
    pub fn handle(&mut self, now: u64, event: Event, draws: Draws) -> (r: Result<(Vec<Event>, Vec<Sample>), SimError>)
        requires
            old(self).wf(),
        ensures
            final(self).wf(),
            final(self).links_spec() == old(self).links_spec(),
            final(self).nodes_spec().len() == old(self).nodes_spec().len(),
            handled(*old(self), *final(self), now, event, draws, r),
    {
        if let Some(t) = event.transfer {
            if !t.done {
                if (t.src_node as usize) >= self.nodes.len() || (t.dst_node as usize) >= self.nodes.len() {
                    return Err(SimError::PathUnreachable);
                }
                let delay = self.latency_ns[t.src_node as usize][t.dst_node as usize];
                let e = Event { time: delay, event_type: event.event_type, transfer: Some(Transfer { src_node: t.src_node, dst_node: t.dst_node, done: true }) };
                let out = vec![e];
                assert(out@ =~= seq![e]);
                return Ok((out, Vec::new()));
            }
        }
        match event.event_type {
            EventType::NodeEvent(NodeEventData::EprGenerated(g)) => self.handle_epr_generated(now, g, draws),
            EventType::NodeEvent(NodeEventData::EprNotified(d)) => {
                let id = d.this_node_id as usize;
                if id >= self.nodes.len() {
                    return Err(SimError::PathUnreachable);
                }
                match self.register.pair(d.epr_pair_id) {
                    Some(p) => {
                        if p.alice_id != Some(d.this_node_id) && p.bob_id != Some(d.this_node_id) {
                            return Err(SimError::ProtocolViolation);
                        }
                    },
                    None => {
                        return Err(SimError::ProtocolViolation);
                    },
                }
                let ghost n0 = self.nodes@;
                let r = self.nodes[id].epr_established(now, d.peer_node_id, d.role, d.epr_pair_id);
                proof {
                    assert forall|k: int| 0 <= k < self.nodes@.len() implies (#[trigger] self.nodes@[k]).wf() && self.nodes@[k].node_id_spec() == k by {
                        if k != id {
                            assert(self.nodes@[k] == n0[k]);
                        }
                    }
                    assert forall|k: int, x: u64| 0 <= k < self.nodes@.len() && #[trigger] node_holds(self.nodes@[k], x) implies pair_live_at(self.register@, x, k as u32) by {
                        if k != id {
                            assert(self.nodes@[k] == n0[k]);
                        } else if x != d.epr_pair_id {
                            assert(node_holds(n0[k], x));
                        }
                    }
                }
                match r {
                    Ok(events) => {
                        let (occupied, cells) = match self.nodes[id].nic(d.role, d.peer_node_id) {
                            Some(nic) => (nic.occupied() as u64, nic.len() as u64),
                            None => (0, 0),
                        };
                        Ok((events, vec![Sample::Occupancy { node_id: d.this_node_id, peer_node_id: d.peer_node_id, occupied, cells }]))
                    },
                    Err(e) => Err(e),
                }
            },
            EventType::NodeEvent(NodeEventData::EprFidelity(d)) => self.handle_epr_fidelity(now, d),
            EventType::NodeEvent(NodeEventData::EsRequest(d)) => {
                let id = d.next_hop as usize;
                if id >= self.nodes.len() {
                    return Err(SimError::PathUnreachable);
                }
                let ghost n0 = self.nodes@;
                let r = if d.epr.target_node_id == d.next_hop {
                    self.nodes[id].handle_es_request(d, draws.corrections)
                } else {
                    match self.topology.path(d.next_hop, d.epr.target_node_id) {
                        Some(p) => {
                            if p.len() < 2 {
                                return Err(SimError::PathUnreachable);
                            }
                            let next = p[1];
                            self.nodes[id].handle_es_swap(d, draws.swap_ok, next)
                        },
                        None => {
                            return Err(SimError::PathUnreachable);
                        },
                    }
                };
                proof { self.lemma_node_updated(n0, id as int); }
                match r {
                    Ok(events) => Ok((events, Vec::new())),
                    Err(e) => Err(e),
                }
            },
            EventType::NodeEvent(NodeEventData::EsLocalComplete(d)) => {
                let id = d.next_hop as usize;
                if id >= self.nodes.len() {
                    return Err(SimError::PathUnreachable);
                }
                match self.nodes[id].handle_es_local_complete(d) {
                    Ok(events) => Ok((events, Vec::new())),
                    Err(e) => Err(e),
                }
            },
            EventType::NodeEvent(NodeEventData::EsFailure(d)) => {
                let id = match event.transfer {
                    Some(t) => t.dst_node as usize,
                    None => d.epr.source_node_id as usize,
                };
                if id >= self.nodes.len() {
                    return Err(SimError::PathUnreachable);
                }
                let ghost n0 = self.nodes@;
                let r = self.nodes[id].handle_es_failure(d);
                proof { self.lemma_node_updated(n0, id as int); }
                match r {
                    Ok(events) => Ok((events, Vec::new())),
                    Err(e) => Err(e),
                }
            },
            EventType::NodeEvent(NodeEventData::EsRemoteComplete(epr)) => {
                let id = epr.source_node_id as usize;
                if id >= self.nodes.len() {
                    return Err(SimError::PathUnreachable);
                }
                let ghost n0 = self.nodes@;
                let r = self.nodes[id].handle_es_remote_complete(now, epr);
                proof { self.lemma_node_updated(n0, id as int); }
                match r {
                    Ok((events, sample)) => Ok((events, vec![Sample::Latency(sample)])),
                    Err(e) => Err(e),
                }
            },
            EventType::OsEvent(OsEventData::EprRequestApp(epr)) => {
                let id = epr.source_node_id as usize;
                if id >= self.nodes.len() {
                    return Err(SimError::PathUnreachable);
                }
                let path = match self.topology.path(epr.source_node_id, epr.target_node_id) {
                    Some(p) => p,
                    None => {
                        return Err(SimError::PathUnreachable);
                    },
                };
                let ghost n0 = self.nodes@;
                let r = self.nodes[id].handle_epr_request_app(now, epr, path);
                proof { self.lemma_node_updated(n0, id as int); }
                match r {
                    Ok(events) => Ok((events, Vec::new())),
                    Err(e) => Err(e),
                }
            },
            EventType::AppEvent(d) => {
                let id = app_node_exec(&d) as usize;
                if id >= self.nodes.len() {
                    return Err(SimError::PathUnreachable);
                }
                let ghost n0 = self.nodes@;
                let r = self.nodes[id].handle_app_event(event, draws.app_delay_ns);
                proof { self.lemma_node_updated(n0, id as int); }
                match r {
                    Ok((events, app_samples)) => {
                        let mut samples: Vec<Sample> = Vec::new();
                        let mut k: usize = 0;
                        while k < app_samples.len()
                            invariant
                                k <= app_samples@.len(),
                            decreases app_samples@.len() - k,
                        {
                            samples.push(Sample::App(app_samples[k]));
                            k = k + 1;
                        }
                        Ok((events, samples))
                    },
                    Err(e) => Err(e),
                }
            },
            _ => Err(SimError::ProtocolViolation),
        }
    }

    /// An application measured the photon held in a memory cell: free the
    /// cell, consume the node's end of the pair in the register, and report
    /// the pair's fidelity at its last update.
    pub fn handle_epr_fidelity(&mut self, now: u64, d: crate::event::EprFidelityData) -> (r: Result<(Vec<Event>, Vec<Sample>), SimError>)
        requires
            old(self).wf(),
        ensures
            final(self).wf(),
            final(self).links_spec() == old(self).links_spec(),
            final(self).nodes_spec().len() == old(self).nodes_spec().len(),
            fidelity_measured(*old(self), *final(self), now, d, r),
            forall|k: int|
                0 <= k < old(self).nodes_spec().len() && k != d.consume_node_id ==> #[trigger] final(self).nodes_spec()[k]
                    == old(self).nodes_spec()[k],
    {
        let id = d.consume_node_id as usize;
        if id >= self.nodes.len() {
            return Err(SimError::PathUnreachable);
        }
        let ghost n0 = self.nodes@;
        let ghost cell = d.memory_cell;
        let ghost nics0 = n0[id as int].nics_spec(cell.role);
        let c = self.nodes[id].consume(d.memory_cell.neighbor_node_id, d.memory_cell.role, d.memory_cell.local_pair_id);
        proof { self.lemma_node_updated(n0, id as int); }
        match c {
            None => Err(SimError::ProtocolViolation),
            Some(data) => {
                let ghost c0 = cells_of(nics0, cell.neighbor_node_id).unwrap();
                proof {
                    let k = choose|k: int|
                        first_holding(c0, cell.local_pair_id, k) && c == c0[k].data_spec() && cells_of(
                            self.nodes@[id as int].nics_spec(cell.role),
                            cell.neighbor_node_id,
                        ) == Some(c0.update(k, MemoryCell::Empty));
                    assert(data.local_pair_id == cell.local_pair_id);
                    let x = choose|x: int| crate::node::peer_index(nics0, cell.neighbor_node_id, x);
                    assert(nics0[x].nic@[k].holds(cell.local_pair_id));
                    assert(nics_hold(nics0, cell.local_pair_id));
                    assert(node_holds(n0[id as int], cell.local_pair_id));
                    assert(pair_live_at(self.register@, cell.local_pair_id, id as u32));
                }
                if self.nodes[id].holds_pair(data.local_pair_id) {
                    Err(SimError::ProtocolViolation)
                } else {
                    let ghost reg0 = self.register@;
                    let ghost pid = data.local_pair_id;
                    let rc = self.register.consume(data.local_pair_id, d.consume_node_id);
                    proof {
                        assert forall|k: int, x: u64| 0 <= k < self.nodes@.len() && #[trigger] node_holds(self.nodes@[k], x) implies pair_live_at(self.register@, x, k as u32) by {
                            assert(pair_live_at(reg0, x, k as u32));
                            if x == pid {
                                assert(k != id);
                            }
                        }
                        assert(self.register@ == register_after(reg0, pid, id as u32));
                    }
                    match rc {
                        Some((updated_ns, fidelity_bits)) => {
                            let samples = vec![Sample::Fidelity {
                                app_node_id: d.app_node_id,
                                port: d.port,
                                consume_node_id: d.consume_node_id,
                                updated_ns,
                                fidelity_bits,
                                now_ns: now,
                            }];
                            assert(samples@ =~= seq![Sample::Fidelity {
                                app_node_id: d.app_node_id,
                                port: d.port,
                                consume_node_id: d.consume_node_id,
                                updated_ns: reg0[pid].updated,
                                fidelity_bits: reg0[pid].fidelity_bits,
                                now_ns: now,
                            }]);
                            Ok((Vec::new(), samples))
                        },
                        None => Err(SimError::ProtocolViolation),
                    }
                }
            },
        }

    }

    /// After node `i` changed in place, keeping its identifier and
    /// well-formedness and holding no new pair, while the register stayed,
    /// the network is still well formed.
    proof fn lemma_node_updated(&self, n0: Seq<Node>, i: int)
        requires
            0 <= i < n0.len(),
            self.nodes@ == n0.update(i, self.nodes@[i]),
            self.nodes@[i].wf(),
            self.nodes@[i].node_id_spec() == n0[i].node_id_spec(),
            crate::node::holds_no_new(n0[i], self.nodes@[i]),
            forall|k: int| 0 <= k < n0.len() ==> (#[trigger] n0[k]).wf() && n0[k].node_id_spec() == k,
            forall|k: int, x: u64| 0 <= k < n0.len() && #[trigger] node_holds(n0[k], x) ==> pair_live_at(self.register@, x, k as u32),
        ensures
            forall|k: int| 0 <= k < self.nodes@.len() ==> (#[trigger] self.nodes@[k]).wf() && self.nodes@[k].node_id_spec() == k,
            forall|k: int, x: u64| 0 <= k < self.nodes@.len() && #[trigger] node_holds(self.nodes@[k], x) ==> pair_live_at(self.register@, x, k as u32),
    {
        assert forall|k: int| 0 <= k < self.nodes@.len() implies (#[trigger] self.nodes@[k]).wf() && self.nodes@[k].node_id_spec() == k by {
            if k != i {
                assert(self.nodes@[k] == n0[k]);
            }
        }
        assert forall|k: int, x: u64| 0 <= k < self.nodes@.len() && #[trigger] node_holds(self.nodes@[k], x) implies pair_live_at(self.register@, x, k as u32) by {
            if k != i {
                assert(self.nodes@[k] == n0[k]);
            } else {
                assert(node_holds(n0[k], x));
            }
        }
    }

    /// A generator of a link fired: register a new pair between the link's
    /// ends and notify both ends, and fire again after
    /// `draws.next_generation_ns`. Fails if no link has this generator, or
    /// the register has given out every identifier.
    fn handle_epr_generated(&mut self, now: u64, g: EprGeneratedData, draws: Draws) -> (r: Result<(Vec<Event>, Vec<Sample>), SimError>)
        requires
            old(self).wf(),
        ensures
            final(self).wf(),
            final(self).links_spec() == old(self).links_spec(),
            final(self).nodes_spec().len() == old(self).nodes_spec().len(),
            generated(*old(self), *final(self), now, g, draws, r),
    {
        let known = find_link(self.topology.links(), g);
        proof {
            if known {
                let k = choose|k: int|
                    0 <= k < self.links_spec().len() && (#[trigger] self.links_spec()[k]).master == g.master_node_id
                        && self.links_spec()[k].slave == g.slave_node_id && self.links_spec()[k].weight.tx == g.tx_node_id;
                assert(link_generator(self.links_spec()[k]) == g);
            }
        }
        if !known || self.register.next_id_exec() == u64::MAX {
            return Err(SimError::PathUnreachable);
        }
        let bits = match draws.fidelity_bits {
            Some(b) => b,
            None => {
                let events = vec![Event::new(draws.next_generation_ns, EventType::NodeEvent(NodeEventData::EprGenerated(g)))];
                assert(events@ =~= seq![generation(draws.next_generation_ns, g)]);
                return Ok((events, Vec::new()));
            },
        };
        let id = self.register.new_epr_pair(g.master_node_id, g.slave_node_id, now, bits);
        let events = vec![
            Event::new(0, EventType::NodeEvent(NodeEventData::EprNotified(EprNotifiedData { this_node_id: g.master_node_id, peer_node_id: g.slave_node_id, role: Role::Master, epr_pair_id: id }))),
            Event::new(0, EventType::NodeEvent(NodeEventData::EprNotified(EprNotifiedData { this_node_id: g.slave_node_id, peer_node_id: g.master_node_id, role: Role::Slave, epr_pair_id: id }))),
            Event::new(draws.next_generation_ns, EventType::NodeEvent(NodeEventData::EprGenerated(g))),
        ];
        let samples = vec![Sample::GenFidelity { tx_node_id: g.tx_node_id, fidelity_bits: bits }];
        assert(events@ =~= seq![
            notified(g.master_node_id, g.slave_node_id, Role::Master, id),
            notified(g.slave_node_id, g.master_node_id, Role::Slave, id),
            generation(draws.next_generation_ns, g),
        ]);
        assert(samples@ =~= seq![Sample::GenFidelity { tx_node_id: g.tx_node_id, fidelity_bits: bits }]);
        Ok((events, samples))
    }
}

/// The node whose state an event may change, if any.
pub open spec fn event_node(e: Event) -> Option<u32> {
    match e.event_type {
        EventType::NodeEvent(NodeEventData::EprNotified(d)) => Some(d.this_node_id),
        EventType::NodeEvent(NodeEventData::EprFidelity(d)) => Some(d.consume_node_id),
        EventType::NodeEvent(NodeEventData::EsRequest(d)) => Some(d.next_hop),
        EventType::NodeEvent(NodeEventData::EsLocalComplete(d)) => Some(d.next_hop),
        EventType::NodeEvent(NodeEventData::EsFailure(d)) => match e.transfer {
            Some(t) => Some(t.dst_node),
            None => Some(d.epr.source_node_id),
        },
        EventType::NodeEvent(NodeEventData::EsRemoteComplete(epr)) => Some(epr.source_node_id),
        EventType::OsEvent(OsEventData::EprRequestApp(epr)) => Some(epr.source_node_id),
        EventType::AppEvent(d) => Some(app_node(d)),
        _ => None,
    }
}

/// What handling `event` at `now` does to the network and returns.
pub open spec fn handled(
    before: Network,
    after: Network,
    now: u64,
    event: Event,
    draws: Draws,
    r: Result<(Vec<Event>, Vec<Sample>), SimError>,
) -> bool {
    &&& after.links_spec() == before.links_spec()
    &&& after.nodes_spec().len() == before.nodes_spec().len()
    &&& pending_transfer(event) ==> transferred(before, after, event, r)
    &&& !pending_transfer(event) ==> match event.event_type {
        EventType::NodeEvent(NodeEventData::EprGenerated(g)) => generated(before, after, now, g, draws, r),
        EventType::NodeEvent(NodeEventData::EprFidelity(d)) => fidelity_measured(before, after, now, d, r),
        _ => after.register_spec() == before.register_spec(),
    }
    &&& !pending_transfer(event) ==> match event_node(event) {
        Some(t) => forall|k: int|
            0 <= k < before.nodes_spec().len() && k != t ==> #[trigger] after.nodes_spec()[k] == before.nodes_spec()[k],
        None => after.nodes_spec() == before.nodes_spec(),
    }
}

/// The register after node `i` consumed its end of pair `id`.
pub open spec fn register_after(reg: Map<u64, crate::epr_register::EprPair>, id: u64, i: u32) -> Map<u64, crate::epr_register::EprPair> {
    match crate::epr_register::consumed_by(reg[id], i) {
        Some(p) => if p.alice_id is None && p.bob_id is None {
            reg.remove(id)
        } else {
            reg.insert(id, p)
        },
        None => reg,
    }
}

/// An application measured the photon of `d.memory_cell` at
/// `d.consume_node_id`: the cell is emptied, the node's end of the pair is
/// consumed in the register, and the sample gives the pair's fidelity at
/// its last update, for the caller to decay to `now`. Fails if the node,
/// NIC or pair is missing, or the node still holds the pair elsewhere.
pub open spec fn fidelity_measured(
    before: Network,
    after: Network,
    now: u64,
    d: crate::event::EprFidelityData,
    r: Result<(Vec<Event>, Vec<Sample>), SimError>,
) -> bool {
    let i = d.consume_node_id;
    let c = d.memory_cell;
    if i >= before.nodes_spec().len() {
        r == Err::<(Vec<Event>, Vec<Sample>), SimError>(SimError::PathUnreachable) && after == before
    } else {
        match cells_of(before.nodes_spec()[i as int].nics_spec(c.role), c.neighbor_node_id) {
            None => r == Err::<(Vec<Event>, Vec<Sample>), SimError>(SimError::ProtocolViolation) && after.register_spec()
                == before.register_spec(),
            Some(c0) => if holds_none(c0, c.local_pair_id) {
                r == Err::<(Vec<Event>, Vec<Sample>), SimError>(SimError::ProtocolViolation) && after.register_spec()
                    == before.register_spec() && cells_of(after.nodes_spec()[i as int].nics_spec(c.role), c.neighbor_node_id)
                    == Some(c0)
            } else {
                &&& exists|k: int|
                    first_holding(c0, c.local_pair_id, k) && cells_of(
                        after.nodes_spec()[i as int].nics_spec(c.role),
                        c.neighbor_node_id,
                    ) == Some(c0.update(k, MemoryCell::Empty))
                &&& if node_holds(after.nodes_spec()[i as int], c.local_pair_id) {
                    r == Err::<(Vec<Event>, Vec<Sample>), SimError>(SimError::ProtocolViolation)
                        && after.register_spec() == before.register_spec()
                } else {
                    let p = before.register_spec()@[c.local_pair_id];
                    &&& after.register_spec()@ == register_after(before.register_spec()@, c.local_pair_id, i)
                    &&& r is Ok
                    &&& r.unwrap().0@.len() == 0
                    &&& r.unwrap().1@ == seq![
                        Sample::Fidelity {
                            app_node_id: d.app_node_id,
                            port: d.port,
                            consume_node_id: i,
                            updated_ns: p.updated,
                            fidelity_bits: p.fidelity_bits,
                            now_ns: now,
                        },
                    ]
                }
            },
        }
    }
}

/// The event is a message that has not crossed the classical channel yet.
pub open spec fn pending_transfer(e: Event) -> bool {
    match e.transfer {
        Some(t) => !t.done,
        None => false,
    }
}

/// A message crosses the channel: it comes back after the delay between its
/// ends, marked as crossed.
pub open spec fn transferred(before: Network, after: Network, e: Event, r: Result<(Vec<Event>, Vec<Sample>), SimError>) -> bool {
    let t = e.transfer.unwrap();
    &&& after == before
    &&& if t.src_node < before.nodes_spec().len() && t.dst_node < before.nodes_spec().len() {
        &&& r is Ok
        &&& r.unwrap().0@ == seq![
            Event {
                time: before.latency_spec(t.src_node, t.dst_node),
                event_type: e.event_type,
                transfer: Some(Transfer { src_node: t.src_node, dst_node: t.dst_node, done: true }),
            },
        ]
        &&& r.unwrap().1@.len() == 0
    } else {
        r == Err::<(Vec<Event>, Vec<Sample>), SimError>(SimError::PathUnreachable)
    }
}

/// What handling a generator event does.
pub open spec fn generated(
    before: Network,
    after: Network,
    now: u64,
    g: EprGeneratedData,
    draws: Draws,
    r: Result<(Vec<Event>, Vec<Sample>), SimError>,
) -> bool {
    let known = exists|k: int|
        0 <= k < before.links_spec().len() && link_generator(#[trigger] before.links_spec()[k]) == g;
    let id = before.register_spec().next_id();
    if !known || id == u64::MAX {
        r == Err::<(Vec<Event>, Vec<Sample>), SimError>(SimError::PathUnreachable) && after == before
    } else if draws.fidelity_bits is None {
        &&& r is Ok
        &&& after == before
        &&& r.unwrap().0@ == seq![generation(draws.next_generation_ns, g)]
        &&& r.unwrap().1@.len() == 0
    } else {
        &&& r is Ok
        &&& after.nodes_spec() == before.nodes_spec()
        &&& after.register_spec()@ == before.register_spec()@.insert(
            id,
            crate::epr_register::EprPair {
                alice_id: Some(g.master_node_id),
                bob_id: Some(g.slave_node_id),
                updated: now,
                fidelity_bits: draws.fidelity_bits.unwrap(),
            },
        )
        &&& after.register_spec().next_id() == id + 1
        &&& r.unwrap().0@ == seq![
            notified(g.master_node_id, g.slave_node_id, Role::Master, id),
            notified(g.slave_node_id, g.master_node_id, Role::Slave, id),
            generation(draws.next_generation_ns, g),
        ]
        &&& r.unwrap().1@ == seq![Sample::GenFidelity { tx_node_id: g.tx_node_id, fidelity_bits: draws.fidelity_bits.unwrap() }]
    }
}

/// Every pair held in a memory cell of a node is alive in the register, and
/// that node's end of it is not consumed yet.
pub proof fn lemma_held_pairs_are_live(net: &Network, i: u32, x: u64)
    requires
        net.wf(),
        i < net.nodes_spec().len(),
        node_holds(net.nodes_spec()[i as int], x),
    ensures
        pair_live_at(net.register_spec()@, x, i),
{
    assert(node_holds(net.nodes@[i as int], x));
}

/// Every node of a well-formed network is well formed.
pub proof fn lemma_node_wf(net: &Network, i: int)
    requires
        net.wf(),
        0 <= i < net.nodes_spec().len(),
    ensures
        net.nodes_spec()[i].wf(),
{
    assert(net.nodes@[i].wf());
}

} // verus!
