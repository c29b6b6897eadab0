//! A quantum node: its NICs towards logical peers, its applications and
//! its end-to-end requests.

use crate::apps::client::{client_handled, Client};
use crate::apps::pinger::{pinger_handled, Pinger};
use crate::apps::server::{server_handled, Server};
use crate::apps::AppSample;
use crate::apps::ponger::{ponger_handled, Ponger};
use crate::error::SimError;
use crate::event::{
    AppEventData, EprFiveTuple, EprResponseData, EsRequestData, Event, EventType, MemoryCellId,
    NodeEventData,
};
use crate::nic::{
    first_holding, has_valid, holds_none, ids_unique, lemma_unique_after_update,
    lemma_unique_first_holding, newest_valid_at, MemoryCell, MemoryCellData, Nic, Role,
};
use vstd::prelude::*;

verus! {

/// The NIC of a node towards one peer.
pub struct PeerNic {
    pub peer: u32,
    pub nic: Nic,
}

/// Where an end-to-end request stands at its source.
#[derive(Debug, PartialEq, Eq, Clone, Copy, Structural)]
pub enum Status {
    /// Waiting for a pair with the first hop.
    Queued,
    /// A pair with the first hop is locked for it, and the request is on its
    /// way.
    WaitingForResponse(MemoryCellId),
}

/// An end-to-end request at its source node.
pub struct Request {
    /// When the application issued the request.
    pub received: u64,
    pub epr: EprFiveTuple,
    pub status: Status,
    /// Nodes from the source to the target.
    pub path: Vec<u32>,
}

/// An application running on a node.
pub enum Application {
    Pinger(Pinger),
    Ponger(Ponger),
    Client(Client),
    Server(Server),
}

/// An application and the port it listens on.
pub struct AppSlot {
    pub port: u16,
    pub app: Application,
}

/// What an application does with an event: exactly what its own handler
/// does, a pinger's round-trip times becoming samples.
pub open spec fn app_handled(a: Application, b: Application, event: Event, delay_ns: u64, r: Result<(Vec<Event>, Vec<AppSample>), SimError>) -> bool {
    match (a, b) {
        (Application::Pinger(p), Application::Pinger(q)) => exists|r1: Result<(Vec<Event>, Vec<crate::apps::pinger::RttSample>), SimError>|
            #[trigger] pinger_handled(p, q, event, r1) && match r1 {
                Ok((e, t)) => r is Ok && r.unwrap().0@ == e@ && r.unwrap().1@ == t@.map_values(|x: crate::apps::pinger::RttSample| AppSample::Rtt(x)),
                Err(x) => r == Err::<(Vec<Event>, Vec<AppSample>), SimError>(x),
            },
        (Application::Ponger(p), Application::Ponger(q)) => q == p && exists|r1: Result<Vec<Event>, SimError>|
            #[trigger] ponger_handled(p, event, r1) && match r1 {
                Ok(e) => r is Ok && r.unwrap().0@ == e@ && r.unwrap().1@.len() == 0,
                Err(x) => r == Err::<(Vec<Event>, Vec<AppSample>), SimError>(x),
            },
        (Application::Client(p), Application::Client(q)) => client_handled(p, q, event, delay_ns, r),
        (Application::Server(p), Application::Server(q)) => server_handled(p, q, event, delay_ns, r),
        _ => false,
    }
}

/// The port an application event is for.
pub open spec fn event_port(e: Event) -> u16 {
    match e.event_type {
        EventType::AppEvent(d) => app_port(d),
        _ => 0,
    }
}

/// Latency of a completed end-to-end request, at its source.
#[derive(Debug, PartialEq, Eq, Clone, Copy, Structural)]
pub struct LatencySample {
    pub node_id: u32,
    pub hops: u64,
    pub latency_ns: u64,
}

/// Index of the NIC towards `peer`, if any.
pub open spec fn peer_index(nics: Seq<PeerNic>, peer: u32, i: int) -> bool {
    0 <= i < nics.len() && nics[i].peer == peer
}

/// No two NICs of a list share a peer.
pub open spec fn peers_unique(nics: Seq<PeerNic>) -> bool {
    forall|i: int, j: int|
        0 <= i < nics.len() && 0 <= j < nics.len() && (#[trigger] nics[i]).peer == (#[trigger] nics[j]).peer
            ==> i == j
}

/// The cells of the NIC towards `peer`, if there is one.
pub open spec fn cells_of(nics: Seq<PeerNic>, peer: u32) -> Option<Seq<MemoryCell>> {
    if exists|i: int| peer_index(nics, peer, i) {
        let i = choose|i: int| peer_index(nics, peer, i);
        Some(nics[i].nic@)
    } else {
        None
    }
}

/// Some cell of some NIC of the list holds pair `id`.
pub open spec fn nics_hold(nics: Seq<PeerNic>, id: u64) -> bool {
    exists|i: int, k: int| 0 <= i < nics.len() && 0 <= k < nics[i].nic@.len() && (#[trigger] nics[i].nic@[k]).holds(id)
}

/// `c1` holds no pair, cell by cell, that `c0` did not hold.
pub open spec fn cells_shrink(c0: Seq<MemoryCell>, c1: Seq<MemoryCell>) -> bool {
    &&& c1.len() == c0.len()
    &&& forall|k: int, x: u64| 0 <= k < c1.len() && #[trigger] c1[k].holds(x) ==> c0[k].holds(x)
}

/// Replacing a NIC by one whose cells shrink adds no pair to the list.
pub proof fn lemma_hold_shrinks(nics: Seq<PeerNic>, i: int, pn: PeerNic, x: u64)
    requires
        0 <= i < nics.len(),
        cells_shrink(nics[i].nic@, pn.nic@),
        nics_hold(nics.update(i, pn), x),
    ensures
        nics_hold(nics, x),
{
    let n2 = nics.update(i, pn);
    let (a, k) = choose|a: int, k: int| 0 <= a < n2.len() && 0 <= k < n2[a].nic@.len() && (#[trigger] n2[a].nic@[k]).holds(x);
    if a == i {
        assert(nics[i].nic@[k].holds(x));
    } else {
        assert(nics[a].nic@[k].holds(x));
    }
}

/// Replacing a NIC by one with only empty cells adds no pair to the list.
pub proof fn lemma_hold_replace_empty(nics: Seq<PeerNic>, i: int, pn: PeerNic, x: u64)
    requires
        0 <= i < nics.len(),
        forall|k: int| 0 <= k < pn.nic@.len() ==> (#[trigger] pn.nic@[k]) is Empty,
        nics_hold(nics.update(i, pn), x),
    ensures
        nics_hold(nics, x),
{
    let n2 = nics.update(i, pn);
    let (a, k) = choose|a: int, k: int| 0 <= a < n2.len() && 0 <= k < n2[a].nic@.len() && (#[trigger] n2[a].nic@[k]).holds(x);
    if a == i {
        assert(pn.nic@[k] is Empty);
    } else {
        assert(nics[a].nic@[k].holds(x));
    }
}

/// Adding a NIC with only empty cells adds no pair to the list.
pub proof fn lemma_hold_empty_nic(nics: Seq<PeerNic>, pn: PeerNic, x: u64)
    requires
        forall|k: int| 0 <= k < pn.nic@.len() ==> (#[trigger] pn.nic@[k]) is Empty,
        nics_hold(nics.push(pn), x),
    ensures
        nics_hold(nics, x),
{
    let n2 = nics.push(pn);
    let (a, k) = choose|a: int, k: int| 0 <= a < n2.len() && 0 <= k < n2[a].nic@.len() && (#[trigger] n2[a].nic@[k]).holds(x);
    if a < nics.len() {
        assert(nics[a].nic@[k].holds(x));
    } else {
        assert(pn.nic@[k] is Empty);
    }
}

/// The peer that a request is queued for: the second node of its path.
pub open spec fn first_hop(r: Request) -> u32 {
    r.path@[1]
}

/// A quantum node.
pub struct Node {
    node_id: u32,
    /// Duration of one X or Z correction, in nanoseconds.
    correction_ns: u64,
    nics_master: Vec<PeerNic>,
    nics_slave: Vec<PeerNic>,
    applications: Vec<AppSlot>,
    pending_requests: Vec<Request>,
}

/// Some NIC of the node holds pair `id`.
pub open spec fn node_holds(n: Node, id: u64) -> bool {
    nics_hold(n.nics_spec(Role::Master), id) || nics_hold(n.nics_spec(Role::Slave), id)
}

/// The node holds no pair that `before` did not hold.
pub open spec fn holds_no_new(before: Node, after: Node) -> bool {
    forall|x: u64| #[trigger] node_holds(after, x) ==> node_holds(before, x)
}

impl Node {
    pub closed spec fn node_id_spec(&self) -> u32 {
        self.node_id
    }

    pub closed spec fn correction_ns_spec(&self) -> u64 {
        self.correction_ns
    }

    pub closed spec fn nics_spec(&self, role: Role) -> Seq<PeerNic> {
        match role {
            Role::Master => self.nics_master@,
            Role::Slave => self.nics_slave@,
        }
    }

    pub closed spec fn pending_spec(&self) -> Seq<Request> {
        self.pending_requests@
    }

    pub closed spec fn apps_spec(&self) -> Seq<AppSlot> {
        self.applications@
    }

    pub closed spec fn ports_spec(&self) -> Seq<u16> {
        self.applications@.map_values(|a: AppSlot| a.port)
    }

    /// NIC peers and application ports are unique, and every pending
    /// request was issued here, over a path of at least two nodes.
    pub closed spec fn wf(&self) -> bool {
        &&& self.correction_ns <= u64::MAX / 2
        &&& peers_unique(self.nics_master@)
        &&& peers_unique(self.nics_slave@)
        &&& forall|i: int|
            0 <= i < self.pending_requests@.len() ==> request_ok(
                self.node_id,
                (#[trigger] self.pending_requests@[i]).epr,
                self.pending_requests@[i].path@,
            )
        &&& epr_unique(self.pending_requests@)
        &&& forall|i: int, j: int|
            0 <= i < self.applications@.len() && 0 <= j < self.applications@.len() && (#[trigger] self.applications@[i]).port
                == (#[trigger] self.applications@[j]).port ==> i == j
    }

    /// A node with no NIC, application or request.
    pub fn new(node_id: u32, correction_ns: u64) -> (r: Self)
        requires
            correction_ns <= u64::MAX / 2,
        ensures
            r.wf(),
            r.node_id_spec() == node_id,
            r.correction_ns_spec() == correction_ns,
            r.nics_spec(Role::Master).len() == 0,
            r.nics_spec(Role::Slave).len() == 0,
            r.pending_spec().len() == 0,
            r.ports_spec().len() == 0,
    {
        let r = Node {
            node_id,
            correction_ns,
            nics_master: Vec::new(),
            nics_slave: Vec::new(),
            applications: Vec::new(),
            pending_requests: Vec::new(),
        };
        assert(r.ports_spec() =~= Seq::<u16>::empty());
        r
    }

    pub fn node_id(&self) -> (r: u32)
        ensures
            r == self.node_id_spec(),
    {
        self.node_id
    }

    /// Number of pending requests.
    pub fn num_pending(&self) -> (r: usize)
        ensures
            r == self.pending_spec().len(),
    {
        self.pending_requests.len()
    }

    /// Index of the NIC towards `peer` with the given role.
    fn find_nic(&self, role: Role, peer: u32) -> (r: Option<usize>)
        requires
            self.wf(),
        ensures
            r is None <==> !exists|i: int| peer_index(self.nics_spec(role), peer, i),
            r matches Some(i) ==> peer_index(self.nics_spec(role), peer, i as int),
    {
        let nics = match role {
            Role::Master => &self.nics_master,
            Role::Slave => &self.nics_slave,
        };
        let mut i: usize = 0;
        while i < nics.len()
            invariant
                i <= nics@.len(),
                nics@ == self.nics_spec(role),
                forall|j: int| 0 <= j < i ==> (#[trigger] nics@[j]).peer != peer,
            decreases nics@.len() - i,
        {
            if nics[i].peer == peer {
                assert(peer_index(self.nics_spec(role), peer, i as int));
                return Some(i);
            }
            i = i + 1;
        }
        None
    }

    /// The NIC towards `peer` with the given role, if any.
    pub fn nic(&self, role: Role, peer: u32) -> (r: Option<&Nic>)
        requires
            self.wf(),
        ensures
            r is None <==> cells_of(self.nics_spec(role), peer) is None,
            r matches Some(n) ==> Some(n@) == cells_of(self.nics_spec(role), peer),
    {
        match self.find_nic(role, peer) {
            Some(i) => {
                proof {
                    let j = choose|j: int| peer_index(self.nics_spec(role), peer, j);
                    assert(j == i);
                }
                match role {
                    Role::Master => Some(&self.nics_master[i].nic),
                    Role::Slave => Some(&self.nics_slave[i].nic),
                }
            },
            None => None,
        }
    }

    /// Add a NIC with `num_qubits` empty cells towards `peer`, replacing the
    /// one there was. Return true if there was none.
    pub fn add_nic(&mut self, peer: u32, role: Role, num_qubits: u32) -> (r: bool)
        requires
            old(self).wf(),
        ensures
            holds_no_new(*old(self), *final(self)),
            final(self).wf(),
            r == (cells_of(old(self).nics_spec(role), peer) is None),
            cells_of(final(self).nics_spec(role), peer) matches Some(c) && c.len() == num_qubits && forall|k: int|
                0 <= k < num_qubits ==> c[k] is Empty,
            forall|p: u32| p != peer ==> cells_of(final(self).nics_spec(role), p) == cells_of(old(self).nics_spec(role), p),
            final(self).nics_spec(if role is Master { Role::Slave } else { Role::Master }) == old(self).nics_spec(
                if role is Master { Role::Slave } else { Role::Master },
            ),
            final(self).pending_spec() == old(self).pending_spec(),
            final(self).node_id_spec() == old(self).node_id_spec(),
            final(self).correction_ns_spec() == old(self).correction_ns_spec(),
    {
        let nic = Nic::new(role, num_qubits);
        let found = self.find_nic(role, peer);
        let ghost nics0 = self.nics_spec(role);
        match found {
            Some(i) => {
                match role {
                    Role::Master => {
                        self.nics_master.set(i, PeerNic { peer, nic });
                    },
                    Role::Slave => {
                        self.nics_slave.set(i, PeerNic { peer, nic });
                    },
                }
                proof {
                    let nics = self.nics_spec(role);
                    assert(nics == nics0.update(i as int, nics[i as int]));
                    assert(peer_index(nics, peer, i as int));
                    assert(peers_unique(nics)) by {
                        assert forall|a: int, b: int|
                            0 <= a < nics.len() && 0 <= b < nics.len() && (#[trigger] nics[a]).peer
                                == (#[trigger] nics[b]).peer implies a == b by {
                            assert(nics[a].peer == nics0[a].peer);
                            assert(nics[b].peer == nics0[b].peer);
                        }
                    }
                    let j = choose|j: int| peer_index(nics, peer, j);
                    assert(j == i);
                    assert forall|x: u64| nics_hold(nics, x) implies nics_hold(nics0, x) by {
                        lemma_hold_replace_empty(nics0, i as int, nics[i as int], x);
                    }
                    assert forall|p: u32| p != peer implies cells_of(nics, p) == cells_of(nics0, p) by {
                        if exists|j: int| peer_index(nics0, p, j) {
                            let j = choose|j: int| peer_index(nics0, p, j);
                            assert(peer_index(nics, p, j));
                        }
                        if exists|j: int| peer_index(nics, p, j) {
                            let j = choose|j: int| peer_index(nics, p, j);
                            assert(peer_index(nics0, p, j));
                        }
                    }
                }
                false
            },
            None => {
                match role {
                    Role::Master => {
                        self.nics_master.push(PeerNic { peer, nic });
                    },
                    Role::Slave => {
                        self.nics_slave.push(PeerNic { peer, nic });
                    },
                }
                proof {
                    let nics = self.nics_spec(role);
                    assert(nics == nics0.push(nics[nics.len() - 1]));
                    assert(peer_index(nics, peer, nics.len() - 1));
                    assert(peers_unique(nics)) by {
                        assert forall|a: int, b: int|
                            0 <= a < nics.len() && 0 <= b < nics.len() && (#[trigger] nics[a]).peer
                                == (#[trigger] nics[b]).peer implies a == b by {
                            if a < nics0.len() && b == nics0.len() {
                                assert(peer_index(nics0, peer, a));
                            }
                            if b < nics0.len() && a == nics0.len() {
                                assert(peer_index(nics0, peer, b));
                            }
                        }
                    }
                    let j = choose|j: int| peer_index(nics, peer, j);
                    assert(j == nics.len() - 1);
                    assert forall|x: u64| nics_hold(nics, x) implies nics_hold(nics0, x) by {
                        lemma_hold_empty_nic(nics0, nics[nics.len() - 1], x);
                    }
                    assert forall|p: u32| p != peer implies cells_of(nics, p) == cells_of(nics0, p) by {
                        if exists|j: int| peer_index(nics0, p, j) {
                            let j = choose|j: int| peer_index(nics0, p, j);
                            assert(peer_index(nics, p, j));
                        }
                        if exists|j: int| peer_index(nics, p, j) {
                            let j = choose|j: int| peer_index(nics, p, j);
                            assert(peer_index(nics0, p, j));
                        }
                    }
                }
                true
            },
        }
    }
}


/// Replacing the NIC at index `i` by one towards the same peer changes only
/// the cells of that peer.
proof fn lemma_replace_nic(nics: Seq<PeerNic>, i: int, pn: PeerNic)
    requires
        peers_unique(nics),
        0 <= i < nics.len(),
        pn.peer == nics[i].peer,
    ensures
        peers_unique(nics.update(i, pn)),
        cells_of(nics.update(i, pn), pn.peer) == Some(pn.nic@),
        forall|p: u32| p != pn.peer ==> cells_of(nics.update(i, pn), p) == cells_of(nics, p),
{
    let n2 = nics.update(i, pn);
    assert forall|a: int, b: int|
        0 <= a < n2.len() && 0 <= b < n2.len() && (#[trigger] n2[a]).peer == (#[trigger] n2[b]).peer implies a
        == b by {
        assert(n2[a].peer == nics[a].peer);
        assert(n2[b].peer == nics[b].peer);
    }
    assert(peer_index(n2, pn.peer, i));
    let j = choose|j: int| peer_index(n2, pn.peer, j);
    assert(j == i);
    assert forall|p: u32| p != pn.peer implies cells_of(n2, p) == cells_of(nics, p) by {
        if exists|j: int| peer_index(nics, p, j) {
            let j = choose|j: int| peer_index(nics, p, j);
            assert(peer_index(n2, p, j));
            let k = choose|k: int| peer_index(n2, p, k);
            assert(k == j);
        }
        if exists|j: int| peer_index(n2, p, j) {
            let j = choose|j: int| peer_index(n2, p, j);
            assert(peer_index(nics, p, j));
        }
    }
}

/// The NIC at index `i` is the one towards its peer.
proof fn lemma_cells_at(nics: Seq<PeerNic>, i: int)
    requires
        peers_unique(nics),
        0 <= i < nics.len(),
    ensures
        cells_of(nics, nics[i].peer) == Some(nics[i].nic@),
{
    assert(peer_index(nics, nics[i].peer, i));
    let j = choose|j: int| peer_index(nics, nics[i].peer, j);
    assert(j == i);
}

/// The NIC was there and kept its size, and holds pair `id` if it had an
/// empty or a valid cell for it.
pub open spec fn stored_in(c0: Option<Seq<MemoryCell>>, c1: Option<Seq<MemoryCell>>, id: u64) -> bool {
    match (c0, c1) {
        (Some(a), Some(b)) => b.len() == a.len() && ((crate::nic::has_empty(a) || has_valid(a)) ==> exists|k: int|
            0 <= k < b.len() && (#[trigger] b[k]).holds(id)),
        _ => false,
    }
}

/// `c1` is `c0` with some valid cells locked.
pub open spec fn locked_only(c0: Seq<MemoryCell>, c1: Seq<MemoryCell>) -> bool {
    &&& c1.len() == c0.len()
    &&& forall|k: int|
        0 <= k < c0.len() ==> #[trigger] c1[k] == c0[k] || (c0[k] is Valid && c1[k] == MemoryCell::Used(
            c0[k].data_spec().unwrap(),
        ))
}

/// `e` sends a hop of an entanglement request from `src` to `peer`.
pub open spec fn es_request_from(e: Event, src: u32, peer: u32) -> bool {
    &&& e.transfer == Some(crate::event::Transfer { src_node: src, dst_node: peer, done: false })
    &&& e.time == 0
    &&& match e.event_type {
        EventType::NodeEvent(NodeEventData::EsRequest(d)) => d.prev_hop == src && d.next_hop == peer,
        _ => false,
    }
}

/// No two pending requests share a five-tuple.
pub open spec fn epr_unique(pending: Seq<Request>) -> bool {
    forall|i: int, j: int| 0 <= i < pending.len() && 0 <= j < pending.len() && i != j ==> (#[trigger] pending[i]).epr != (#[trigger] pending[j]).epr
}

/// Some pending request has five-tuple `epr`.
pub open spec fn pending_has(pending: Seq<Request>, epr: EprFiveTuple) -> bool {
    exists|j: int| 0 <= j < pending.len() && (#[trigger] pending[j]).epr == epr
}

proof fn lemma_unique_remove(p: Seq<Request>, j: int)
    requires
        epr_unique(p),
        0 <= j < p.len(),
    ensures
        epr_unique(p.remove(j)),
        !pending_has(p.remove(j), p[j].epr),
{
    let q = p.remove(j);
    assert forall|a: int, b: int| 0 <= a < q.len() && 0 <= b < q.len() && a != b implies (#[trigger] q[a]).epr != (#[trigger] q[b]).epr by {
        let a2 = if a < j { a } else { a + 1 };
        let b2 = if b < j { b } else { b + 1 };
        assert(q[a] == p[a2] && q[b] == p[b2]);
    }
    if pending_has(q, p[j].epr) {
        let a = choose|a: int| 0 <= a < q.len() && (#[trigger] q[a]).epr == p[j].epr;
        let a2 = if a < j { a } else { a + 1 };
        assert(q[a] == p[a2]);
    }
}

proof fn lemma_unique_push(p: Seq<Request>, r: Request)
    requires
        epr_unique(p),
        !pending_has(p, r.epr),
    ensures
        epr_unique(p.push(r)),
{
    let q = p.push(r);
    assert forall|a: int, b: int| 0 <= a < q.len() && 0 <= b < q.len() && a != b implies (#[trigger] q[a]).epr != (#[trigger] q[b]).epr by {
        if a == p.len() {
            assert(q[b] == p[b]);
        } else if b == p.len() {
            assert(q[a] == p[a]);
        } else {
            assert(q[a] == p[a] && q[b] == p[b]);
        }
    }
}

/// The NIC is there in both or neither, with only valid cells locked.
pub open spec fn locked_at(a: Option<Seq<MemoryCell>>, b: Option<Seq<MemoryCell>>) -> bool {
    match (a, b) {
        (Some(x), Some(y)) => locked_only(x, y),
        (None, None) => true,
        _ => false,
    }
}

/// A cell that held pair `id` in `a` is empty in `b`; or `a` held no such
/// pair.
pub open spec fn freed_in(a: Option<Seq<MemoryCell>>, b: Option<Seq<MemoryCell>>, id: u64) -> bool {
    match (a, b) {
        (Some(x), Some(y)) => holds_none(x, id) || exists|i: int| first_holding(x, id, i) && y[i] is Empty,
        (None, None) => true,
        _ => false,
    }
}

/// Request `j` of `a`, for `epr`, was taken out, its locked pair freed, and
/// queued again at the end with its original issue time.
pub open spec fn requeued(a: Node, b: Node, epr: EprFiveTuple, j: int) -> bool {
    let pa = a.pending_spec();
    let pb = b.pending_spec();
    &&& 0 <= j < pa.len()
    &&& pa[j].epr == epr
    &&& pb.len() == pa.len()
    &&& same_request(pa[j], pb.last())
    &&& forall|k: int| 0 <= k < pa.len() - 1 ==> same_request(pa.remove(j)[k], #[trigger] pb[k])
    &&& match pa[j].status {
        Status::WaitingForResponse(c) => c.role == Role::Master ==> freed_in(
            cells_of(a.nics_spec(Role::Master), c.neighbor_node_id),
            cells_of(b.nics_spec(Role::Master), c.neighbor_node_id),
            c.local_pair_id,
        ),
        Status::Queued => true,
    }
}

/// No request queued for `peer` is left while the master NIC towards
/// `peer` still has a valid cell, provided its pair identifiers were unique
/// in `c0`, the NIC before scheduling.
pub open spec fn peer_drained(b: Node, peer: u32, c0: Option<Seq<MemoryCell>>) -> bool {
    match (c0, cells_of(b.nics_spec(Role::Master), peer)) {
        (Some(x), Some(y)) => ids_unique(x) ==> forall|i: int|
            0 <= i < b.pending_spec().len() && first_hop(#[trigger] b.pending_spec()[i]) == peer
                && b.pending_spec()[i].status is Queued ==> !has_valid(y),
        _ => true,
    }
}

/// The hop that sends request `r` to `peer` over pair `id`.
pub open spec fn hop_event(node_id: u32, peer: u32, r: Request, id: u64) -> Event {
    Event {
        time: 0,
        event_type: EventType::NodeEvent(
            NodeEventData::EsRequest(
                EsRequestData { epr: r.epr, prev_hop: node_id, next_hop: peer, hops: (r.path@.len() - 1) as u32, local_pair_id: id },
            ),
        ),
        transfer: Some(crate::event::Transfer { src_node: node_id, dst_node: peer, done: false }),
    }
}

/// The NIC has a valid cell holding pair `id`.
pub open spec fn valid_in(cells: Option<Seq<MemoryCell>>, id: u64) -> bool {
    match cells {
        Some(c) => exists|q: int| 0 <= q < c.len() && c[q] is Valid && (#[trigger] c[q]).holds(id),
        None => false,
    }
}

/// Pair locked for a request that waits for its response.
pub open spec fn locked_id(st: Status) -> u64 {
    match st {
        Status::WaitingForResponse(c) => c.local_pair_id,
        Status::Queued => 0,
    }
}

/// Request `j` was sent by a scheduling pass and event `e` sends it.
pub open spec fn sent_by(node_id: u32, peer: u32, before: Seq<Request>, after: Seq<Request>, j: int, e: Event) -> bool {
    &&& 0 <= j < before.len()
    &&& after[j].status != before[j].status
    &&& e == hop_event(node_id, peer, before[j], locked_id(after[j].status))
}

/// The events send, in the order of the queue, exactly the requests whose
/// status changed: event `k` sends request `sent[k]`.
pub open spec fn sends_in_order(node_id: u32, peer: u32, before: Seq<Request>, after: Seq<Request>, evs: Seq<Event>) -> bool {
    exists|sent: Seq<int>| #[trigger] sent_list(node_id, peer, before, after, evs, sent, before.len() as int)
}

/// `sent` lists, in increasing order, the requests below `upto` whose status
/// changed, and event `k` sends request `sent[k]`.
pub open spec fn sent_list(node_id: u32, peer: u32, before: Seq<Request>, after: Seq<Request>, evs: Seq<Event>, sent: Seq<int>, upto: int) -> bool {
    &&& sent.len() == evs.len()
    &&& forall|k: int| 0 <= k < sent.len() ==> sent[k] < upto && sent_by(node_id, peer, before, after, #[trigger] sent[k], evs[k])
    &&& forall|k1: int, k2: int| 0 <= k1 < k2 < sent.len() ==> sent[k1] < sent[k2]
    &&& forall|j: int| 0 <= j < upto && j < before.len() && #[trigger] after[j].status != before[j].status ==> sent.contains(j)
}

/// The request `b` is `a` with at most its status changed.
pub open spec fn same_request(a: Request, b: Request) -> bool {
    a.received == b.received && a.epr == b.epr && a.path@ == b.path@
}

impl Node {
    /// Send the queued requests for `peer`, in order, each with the newest
    /// valid pair of the master NIC towards `peer`, which gets locked; stop
    /// when no valid pair is left.
    pub fn schedule_pending_requests(&mut self, peer: u32) -> (r: Vec<Event>)
        requires
            old(self).wf(),
        ensures
            holds_no_new(*old(self), *final(self)),
            final(self).wf(),
            final(self).node_id_spec() == old(self).node_id_spec(),
            final(self).correction_ns_spec() == old(self).correction_ns_spec(),
            final(self).nics_spec(Role::Slave) == old(self).nics_spec(Role::Slave),
            final(self).ports_spec() == old(self).ports_spec(),
            forall|p: u32| p != peer ==> cells_of(final(self).nics_spec(Role::Master), p) == cells_of(
                old(self).nics_spec(Role::Master),
                p,
            ),
            cells_of(old(self).nics_spec(Role::Master), peer) is None ==> cells_of(final(self).nics_spec(Role::Master), peer) is None,
            cells_of(old(self).nics_spec(Role::Master), peer) matches Some(c0) ==> {
                &&& cells_of(final(self).nics_spec(Role::Master), peer) matches Some(c1)
                &&& locked_only(c0, c1)
                &&& ids_unique(c0) ==> ids_unique(c1) && forall|i: int|
                    0 <= i < final(self).pending_spec().len() && first_hop(#[trigger] final(self).pending_spec()[i]) == peer
                        && final(self).pending_spec()[i].status is Queued ==> !has_valid(c1)
            },
            final(self).pending_spec().len() == old(self).pending_spec().len(),
            forall|i: int|
                0 <= i < old(self).pending_spec().len() ==> same_request(
                    old(self).pending_spec()[i],
                    #[trigger] final(self).pending_spec()[i],
                ) && (final(self).pending_spec()[i].status != old(self).pending_spec()[i].status ==> {
                    &&& old(self).pending_spec()[i].status is Queued
                    &&& first_hop(old(self).pending_spec()[i]) == peer
                    &&& final(self).pending_spec()[i].status matches Status::WaitingForResponse(c)
                    &&& c.neighbor_node_id == peer
                    &&& c.role == Role::Master
                }),
            forall|k: int|
                0 <= k < r@.len() ==> es_request_from(#[trigger] r@[k], old(self).node_id_spec(), peer),
            sends_in_order(old(self).node_id_spec(), peer, old(self).pending_spec(), final(self).pending_spec(), r@),
            forall|j: int|
                0 <= j < old(self).pending_spec().len() && #[trigger] final(self).pending_spec()[j].status
                    != old(self).pending_spec()[j].status ==> valid_in(
                    cells_of(old(self).nics_spec(Role::Master), peer),
                    locked_id(final(self).pending_spec()[j].status),
                ),
    {
        let mut events: Vec<Event> = Vec::new();
        let found = self.find_nic(Role::Master, peer);
        let ni = match found {
            Some(ni) => ni,
            None => {
                proof {
                    assert(sent_list(old(self).node_id, peer, old(self).pending_requests@, self.pending_requests@, events@, Seq::empty(), old(self).pending_requests@.len() as int));
                    assert forall|p: u32| match (#[trigger] cells_of(old(self).nics_spec(Role::Master), p), cells_of(self.nics_spec(Role::Master), p)) {
                        (Some(x), Some(y)) => locked_only(x, y),
                        (None, None) => true,
                        _ => false,
                    } by {
                        if let Some(x) = cells_of(old(self).nics_spec(Role::Master), p) {
                            assert(locked_only(x, x));
                        }
                    }
                }
                return events;
            },
        };
        proof {
            lemma_cells_at(self.nics_master@, ni as int);
        }
        let ghost old_nics = self.nics_master@;
        let ghost old_pending = self.pending_requests@;
        let ghost c0 = old_nics[ni as int].nic@;
        let mut i: usize = 0;
        let mut exhausted = false;
        let ghost mut sent: Seq<int> = Seq::empty();
        while i < self.pending_requests.len()
            invariant
                self.wf(),
                ni < self.nics_master@.len(),
                ni < old_nics.len(),
                self.nics_master@ =~= old_nics.update(ni as int, self.nics_master@[ni as int]),
                self.nics_master@[ni as int].peer == peer,
                locked_only(c0, self.nics_master@[ni as int].nic@),
                forall|x: u64| nics_hold(self.nics_master@, x) ==> nics_hold(old_nics, x),
                ids_unique(c0) ==> ids_unique(self.nics_master@[ni as int].nic@),
                self.node_id == old(self).node_id,
                self.correction_ns == old(self).correction_ns,
                self.nics_slave == old(self).nics_slave,
                self.applications == old(self).applications,
                old_nics == old(self).nics_master@,
                old_pending == old(self).pending_requests@,
                i <= self.pending_requests@.len(),
                self.pending_requests@.len() == old_pending.len(),
                exhausted ==> !has_valid(self.nics_master@[ni as int].nic@) || !ids_unique(c0),
                forall|j: int|
                    0 <= j < old_pending.len() ==> same_request(old_pending[j], #[trigger] self.pending_requests@[j])
                        && (self.pending_requests@[j].status != old_pending[j].status ==> {
                        &&& old_pending[j].status is Queued
                        &&& first_hop(old_pending[j]) == peer
                        &&& self.pending_requests@[j].status matches Status::WaitingForResponse(c)
                        &&& c.neighbor_node_id == peer
                        &&& c.role == Role::Master
                    }),
                forall|j: int|
                    0 <= j < i && first_hop(#[trigger] self.pending_requests@[j]) == peer
                        && self.pending_requests@[j].status is Queued ==> exhausted,
                forall|j: int| i <= j < old_pending.len() ==> #[trigger] self.pending_requests@[j] == old_pending[j],
                sent_list(old(self).node_id, peer, old_pending, self.pending_requests@, events@, sent, i as int),
                forall|j: int|
                    0 <= j < old_pending.len() && #[trigger] self.pending_requests@[j].status != old_pending[j].status
                        ==> exists|q: int| 0 <= q < c0.len() && c0[q] is Valid && (#[trigger] c0[q]).holds(locked_id(self.pending_requests@[j].status)),
                forall|k: int|
                    0 <= k < events@.len() ==> es_request_from(#[trigger] events@[k], old(self).node_id, peer),
            decreases self.pending_requests@.len() - i,
        {
            let ghost pb = self.pending_requests@;
            let ghost eb = events@;
            let queued = matches!(self.pending_requests[i].status, Status::Queued);
            let hop = self.pending_requests[i].path[1];
            if queued && hop == peer && !exhausted {
                match self.nics_master[ni].nic.newest_valid() {
                    Some(id) => {
                        let ghost cells = self.nics_master@[ni as int].nic@;
                        let ghost prev_nics = self.nics_master@;
                        if self.nics_master[ni].nic.used(id) {
                            proof {
                                let k = choose|k: int|
                                    first_holding(cells, id, k) && self.nics_master@[ni as int].nic@ == cells.update(
                                        k,
                                        MemoryCell::Used(cells[k].data_spec().unwrap()),
                                    );
                                if ids_unique(c0) {
                                    lemma_unique_after_update(cells, k, MemoryCell::Used(cells[k].data_spec().unwrap()));
                                }
                                let c2 = self.nics_master@[ni as int].nic@;
                                assert(cells_shrink(cells, c2));
                                assert forall|x: u64| nics_hold(self.nics_master@, x) implies nics_hold(old_nics, x) by {
                                    lemma_hold_shrinks(prev_nics, ni as int, self.nics_master@[ni as int], x);
                                }
                                assert forall|q: int| 0 <= q < c0.len() implies #[trigger] c2[q] == c0[q] || (c0[q] is Valid
                                    && c2[q] == MemoryCell::Used(c0[q].data_spec().unwrap())) by {
                                    if q == k {
                                        assert(cells[k] is Valid);
                                    }
                                }
                                assert(self.nics_master@ =~= old_nics.update(ni as int, self.nics_master@[ni as int]));
                            }
                            let epr = self.pending_requests[i].epr;
                            let hops = (self.pending_requests[i].path.len() - 1) as u32;
                            let cell = MemoryCellId { neighbor_node_id: peer, role: Role::Master, local_pair_id: id };
                            let ghost pend0 = self.pending_requests@;
                            let ghost ev0 = events@;
                            proof {
                                let k = choose|k: int|
                                    first_holding(cells, id, k) && cells[k] is Valid;
                                assert(c0[k] is Valid && c0[k].holds(id));
                            }
                            self.pending_requests[i].status = Status::WaitingForResponse(cell);
                            events.push(
                                Event::new_transfer(
                                    EventType::NodeEvent(
                                        NodeEventData::EsRequest(
                                            EsRequestData {
                                                epr,
                                                prev_hop: self.node_id,
                                                next_hop: peer,
                                                hops,
                                                local_pair_id: id,
                                            },
                                        ),
                                    ),
                                    self.node_id,
                                    peer,
                                ),
                            );
                            proof {
                                let pend1 = self.pending_requests@;
                                assert(pend0[i as int] == old_pending[i as int]);
                                assert(pend1 =~= pend0.update(i as int, pend1[i as int]));
                                assert(sent_by(old(self).node_id, peer, old_pending, pend1, i as int, events@[ev0.len() as int]));
                                let sent1 = sent.push(i as int);
                                assert forall|k: int| 0 <= k < sent1.len() implies sent1[k] < i + 1 && sent_by(
                                    old(self).node_id, peer, old_pending, pend1, #[trigger] sent1[k], events@[k]) by {
                                    if k < sent.len() {
                                        assert(sent1[k] == sent[k]);
                                        assert(events@[k] == ev0[k]);
                                        assert(sent_by(old(self).node_id, peer, old_pending, pend0, sent[k], ev0[k]));
                                        assert(pend1[sent[k]] == pend0[sent[k]]);
                                    }
                                }
                                assert forall|j: int| 0 <= j < i + 1 && j < old_pending.len() && #[trigger] pend1[j].status != old_pending[j].status
                                    implies sent1.contains(j) by {
                                    if j < i {
                                        assert(pend1[j] == pend0[j]);
                                        assert(sent.contains(j));
                                        let k = choose|k: int| 0 <= k < sent.len() && sent[k] == j;
                                        assert(sent1[k] == j);
                                    } else {
                                        assert(sent1[sent.len() as int] == j);
                                    }
                                }
                                assert(sent_list(old(self).node_id, peer, old_pending, pend1, events@, sent1, i + 1));
                                sent = sent1;
                                assert forall|j: int| 0 <= j < old_pending.len() && #[trigger] pend1[j].status != old_pending[j].status
                                    implies exists|q: int| 0 <= q < c0.len() && c0[q] is Valid && (#[trigger] c0[q]).holds(locked_id(pend1[j].status)) by {
                                    if j != i {
                                        assert(pend1[j] == pend0[j]);
                                    } else {
                                        let k = choose|k: int| first_holding(cells, id, k) && cells[k] is Valid;
                                        assert(c0[k] is Valid && c0[k].holds(id));
                                    }
                                }
                            }
                        } else {
                            proof {
                                if ids_unique(c0) {
                                    let k = choose|k: int|
                                        newest_valid_at(cells, k) && cells[k].data_spec().unwrap().local_pair_id == id;
                                    lemma_unique_first_holding(cells, k, id);
                                }
                            }
                            exhausted = true;
                        }
                    },
                    None => {
                        exhausted = true;
                    },
                }
            }
            proof {
                if events@.len() == eb.len() {
                    assert(self.pending_requests@ == pb);
                    assert(events@ == eb);
                    assert forall|j: int| 0 <= j < i + 1 && j < old_pending.len() && #[trigger] self.pending_requests@[j].status != old_pending[j].status
                        implies sent.contains(j) by {
                        if j == i {
                            assert(self.pending_requests@[j] == old_pending[j]);
                        }
                    }
                }
            }
            i = i + 1;
        }
        proof {
            assert(sent_list(old(self).node_id, peer, old_pending, self.pending_requests@, events@, sent, old_pending.len() as int));
            lemma_replace_nic(old_nics, ni as int, self.nics_master@[ni as int]);
            assert forall|p: u32| match (#[trigger] cells_of(old(self).nics_spec(Role::Master), p), cells_of(self.nics_spec(Role::Master), p)) {
                (Some(x), Some(y)) => locked_only(x, y),
                (None, None) => true,
                _ => false,
            } by {
                if p != peer {
                    if let Some(x) = cells_of(old(self).nics_spec(Role::Master), p) {
                        assert(locked_only(x, x));
                    }
                }
            }
        }
        events
    }
}


/// Index of the pending request for `epr`, if any.
fn find_request(pending: &Vec<Request>, epr: EprFiveTuple) -> (r: Option<usize>)
    ensures
        r is None <==> forall|j: int| 0 <= j < pending@.len() ==> (#[trigger] pending@[j]).epr != epr,
        r matches Some(j) ==> j < pending@.len() && pending@[j as int].epr == epr && forall|k: int|
            0 <= k < j ==> (#[trigger] pending@[k]).epr != epr,
{
    let mut j: usize = 0;
    while j < pending.len()
        invariant
            j <= pending@.len(),
            forall|k: int| 0 <= k < j ==> (#[trigger] pending@[k]).epr != epr,
        decreases pending@.len() - j,
    {
        if pending[j].epr == epr {
            return Some(j);
        }
        j = j + 1;
    }
    None
}

/// The port of the application that an application event is for.
pub open spec fn app_port(data: AppEventData) -> u16 {
    match data {
        AppEventData::EprRequest(_, port) => port,
        AppEventData::EprResponse(d) => if d.is_source {
            d.epr.source_port
        } else {
            d.epr.target_port
        },
        AppEventData::LocalComplete(epr, at_source) => if at_source {
            epr.source_port
        } else {
            epr.target_port
        },
        AppEventData::RemoteComplete(epr) => epr.source_port,
    }
}

fn app_port_exec(data: &AppEventData) -> (r: u16)
    ensures
        r == app_port(*data),
{
    match data {
        AppEventData::EprRequest(_, port) => *port,
        AppEventData::EprResponse(d) => if d.is_source {
            d.epr.source_port
        } else {
            d.epr.target_port
        },
        AppEventData::LocalComplete(epr, at_source) => if *at_source {
            epr.source_port
        } else {
            epr.target_port
        },
        AppEventData::RemoteComplete(epr) => epr.source_port,
    }
}

impl Node {
    /// Store a new pair in the NIC towards `peer` with the given role, then
    /// send the requests queued for `peer`. Fails if there is no such NIC.
    pub fn epr_established(&mut self, now: u64, peer: u32, role: Role, epr_pair_id: u64) -> (r: Result<
        Vec<Event>,
        SimError,
    >)
        requires
            old(self).wf(),
        ensures
            forall|x: u64| #[trigger] node_holds(*final(self), x) ==> node_holds(*old(self), x) || x == epr_pair_id,
            final(self).wf(),
            final(self).node_id_spec() == old(self).node_id_spec(),
            final(self).pending_spec().len() == old(self).pending_spec().len(),
            r is Err <==> cells_of(old(self).nics_spec(role), peer) is None,
            r matches Err(e) ==> e == SimError::PathUnreachable && *final(self) == *old(self),
            r is Ok ==> stored_in(
                cells_of(old(self).nics_spec(role), peer),
                cells_of(final(self).nics_spec(role), peer),
                epr_pair_id,
            ),
            r matches Ok(evs) ==> forall|k: int|
                0 <= k < evs@.len() ==> es_request_from(#[trigger] evs@[k], old(self).node_id_spec(), peer),
    {
        let i = match self.find_nic(role, peer) {
            Some(i) => i,
            None => {
                return Err(SimError::PathUnreachable);
            },
        };
        let ghost nics0 = self.nics_spec(role);
        proof {
            lemma_cells_at(nics0, i as int);
        }
        let ghost c0 = nics0[i as int].nic@;
        let stored = match role {
            Role::Master => self.nics_master[i].nic.add_epr_pair(now, epr_pair_id),
            Role::Slave => self.nics_slave[i].nic.add_epr_pair(now, epr_pair_id),
        };
        proof {
            let nics1 = self.nics_spec(role);
            assert(nics1 =~= nics0.update(i as int, nics1[i as int]));
            lemma_replace_nic(nics0, i as int, nics1[i as int]);
            let c1 = nics1[i as int].nic@;
            if stored {
                if crate::nic::has_empty(c0) {
                    let k = choose|k: int|
                        crate::nic::first_empty(c0, k) && c1 == c0.update(
                            k,
                            MemoryCell::Valid(MemoryCellData { created: now, local_pair_id: epr_pair_id }),
                        );
                    assert(c1[k].holds(epr_pair_id));
                } else {
                    let k = choose|k: int|
                        crate::nic::oldest_valid_at(c0, k) && c1 == c0.update(
                            k,
                            MemoryCell::Valid(MemoryCellData { created: now, local_pair_id: epr_pair_id }),
                        );
                    assert(c1[k].holds(epr_pair_id));
                }
            }
        }
        let ghost mid = self.nics_spec(role);
        let events = self.schedule_pending_requests(peer);
        proof {
            if role is Master {
                let c1 = cells_of(mid, peer).unwrap();
                let c2 = cells_of(self.nics_spec(role), peer).unwrap();
                if exists|k: int| 0 <= k < c1.len() && (#[trigger] c1[k]).holds(epr_pair_id) {
                    let k = choose|k: int| 0 <= k < c1.len() && (#[trigger] c1[k]).holds(epr_pair_id);
                    assert(c2[k].holds(epr_pair_id));
                }
            }
        }
        Ok(events)
    }
}


/// `pending[j]` is the first request for `epr`, waiting for its response,
/// issued no later than `now`.
pub open spec fn completes_at(pending: Seq<Request>, epr: EprFiveTuple, now: u64, j: int) -> bool {
    &&& 0 <= j < pending.len()
    &&& pending[j].epr == epr
    &&& forall|k: int| 0 <= k < j ==> (#[trigger] pending[k]).epr != epr
    &&& pending[j].status is WaitingForResponse
    &&& now >= pending[j].received
}

/// The response that hands the locked pair to the requesting application.
pub open spec fn response_to_source(epr: EprFiveTuple, status: Status) -> Event {
    let cell = match status {
        Status::WaitingForResponse(c) => Some(c),
        Status::Queued => None,
    };
    Event {
        time: 0,
        event_type: EventType::AppEvent(AppEventData::EprResponse(EprResponseData { epr, is_source: true, memory_cell: cell })),
        transfer: None,
    }
}

/// Latency of a request completed at `now`.
pub open spec fn latency_of(node_id: u32, r: Request, now: u64) -> LatencySample {
    LatencySample { node_id, hops: (r.path@.len() - 1) as u64, latency_ns: (now - r.received) as u64 }
}

/// The end-to-end request is one this node can issue over `path`.
pub open spec fn request_ok(node_id: u32, epr: EprFiveTuple, path: Seq<u32>) -> bool {
    &&& epr.source_node_id != epr.target_node_id
    &&& epr.source_node_id == node_id
    &&& path.len() >= 2
    &&& path.len() - 1 <= u32::MAX
    &&& path[0] == epr.source_node_id
    &&& path[path.len() - 1] == epr.target_node_id
}

/// The event that completes a request at its target, after the corrections.
pub open spec fn local_complete(delay: u64, data: EsRequestData) -> Event {
    Event { time: delay, event_type: EventType::NodeEvent(NodeEventData::EsLocalComplete(data)), transfer: None }
}

/// The failure of a hop at its target, sent back to the node that sent it.
pub open spec fn failure_to_prev(node_id: u32, data: EsRequestData) -> Event {
    Event {
        time: 0,
        event_type: EventType::NodeEvent(NodeEventData::EsFailure(data)),
        transfer: Some(crate::event::Transfer { src_node: node_id, dst_node: data.prev_hop, done: false }),
    }
}

/// The failure of a request at a node of its path, sent back to its source.
pub open spec fn failure_back(node_id: u32, data: EsRequestData) -> Event {
    Event {
        time: 0,
        event_type: EventType::NodeEvent(NodeEventData::EsFailure(data)),
        transfer: Some(crate::event::Transfer { src_node: node_id, dst_node: data.epr.source_node_id, done: false }),
    }
}

impl Node {
    /// Consume the pair `local_pair_id` of the NIC towards `peer` with the
    /// given role; None if there is no such NIC or pair.
    pub fn consume(&mut self, peer: u32, role: Role, local_pair_id: u64) -> (r: Option<MemoryCellData>)
        requires
            old(self).wf(),
        ensures
            holds_no_new(*old(self), *final(self)),
            final(self).wf(),
            final(self).node_id_spec() == old(self).node_id_spec(),
            final(self).pending_spec() == old(self).pending_spec(),
            final(self).ports_spec() == old(self).ports_spec(),
            cells_of(old(self).nics_spec(role), peer) is None ==> r is None && *final(self) == *old(self),
            cells_of(old(self).nics_spec(role), peer) matches Some(c0) ==> {
                &&& r is None <==> holds_none(c0, local_pair_id)
                &&& r is None ==> cells_of(final(self).nics_spec(role), peer) == Some(c0)
                &&& r is Some ==> exists|i: int|
                    first_holding(c0, local_pair_id, i) && r == c0[i].data_spec() && cells_of(
                        final(self).nics_spec(role),
                        peer,
                    ) == Some(c0.update(i, MemoryCell::Empty))
            },
            forall|p: u32| p != peer ==> cells_of(final(self).nics_spec(role), p) == cells_of(old(self).nics_spec(role), p),
            final(self).nics_spec(if role is Master { Role::Slave } else { Role::Master }) == old(self).nics_spec(
                if role is Master { Role::Slave } else { Role::Master },
            ),
    {
        let i = match self.find_nic(role, peer) {
            Some(i) => i,
            None => {
                return None;
            },
        };
        let ghost nics0 = self.nics_spec(role);
        proof {
            lemma_cells_at(nics0, i as int);
        }
        let r = match role {
            Role::Master => self.nics_master[i].nic.consume(local_pair_id),
            Role::Slave => self.nics_slave[i].nic.consume(local_pair_id),
        };
        proof {
            let nics1 = self.nics_spec(role);
            assert(nics1 =~= nics0.update(i as int, nics1[i as int]));
            lemma_replace_nic(nics0, i as int, nics1[i as int]);
            let c0 = nics0[i as int].nic@;
            assert(cells_of(old(self).nics_spec(role), peer) == Some(c0));
            assert(cells_of(self.nics_spec(role), peer) == Some(nics1[i as int].nic@));
            if r is None {
                assert(holds_none(c0, local_pair_id));
                assert(nics1[i as int].nic@ == c0);
            }
        }
        r
    }

    /// Queue an end-to-end request issued by an application of this node,
    /// to be sent along `path`, and send what can be sent to the first hop.
    /// `received` is when the application first issued it.
    pub fn handle_epr_request_app(&mut self, received: u64, epr: EprFiveTuple, path: Vec<u32>) -> (r: Result<
        Vec<Event>,
        SimError,
    >)
        requires
            old(self).wf(),
        ensures
            holds_no_new(*old(self), *final(self)),
            final(self).wf(),
            final(self).node_id_spec() == old(self).node_id_spec(),
            final(self).ports_spec() == old(self).ports_spec(),
            !(request_ok(old(self).node_id_spec(), epr, path@) && !pending_has(old(self).pending_spec(), epr))
                ==> r == Err::<Vec<Event>, SimError>(SimError::ProtocolViolation) && *final(self) == *old(self),
            request_ok(old(self).node_id_spec(), epr, path@) && !pending_has(old(self).pending_spec(), epr) ==> {
                &&& r is Ok
                &&& final(self).pending_spec().len() == old(self).pending_spec().len() + 1
                &&& final(self).pending_spec().last().received == received
                &&& final(self).pending_spec().last().epr == epr
                &&& final(self).pending_spec().last().path@ == path@
                &&& forall|k: int| 0 <= k < old(self).pending_spec().len() ==> same_request(old(self).pending_spec()[k], #[trigger] final(self).pending_spec()[k])
                &&& final(self).nics_spec(Role::Slave) == old(self).nics_spec(Role::Slave)
                &&& forall|p: u32| p != path@[1] ==> #[trigger] cells_of(final(self).nics_spec(Role::Master), p) == cells_of(old(self).nics_spec(Role::Master), p)
                &&& locked_at(cells_of(old(self).nics_spec(Role::Master), path@[1]), cells_of(final(self).nics_spec(Role::Master), path@[1]))
                &&& sends_in_order(
                    old(self).node_id_spec(),
                    path@[1],
                    old(self).pending_spec().push((Request { received, epr, status: Status::Queued, path })),
                    final(self).pending_spec(),
                    r.unwrap()@,
                )
                &&& peer_drained(*final(self), path@[1], cells_of(old(self).nics_spec(Role::Master), path@[1]))
                &&& forall|k: int|
                    0 <= k < r.unwrap()@.len() ==> es_request_from(
                        #[trigger] r.unwrap()@[k],
                        old(self).node_id_spec(),
                        path@[1],
                    )
            },
    {
        if epr.source_node_id == epr.target_node_id || epr.source_node_id != self.node_id || path.len() < 2
            || path.len() - 1 > 0xFFFF_FFFF || path[0] != epr.source_node_id || path[path.len() - 1]
            != epr.target_node_id {
            return Err(SimError::ProtocolViolation);
        }
        if find_request(&self.pending_requests, epr).is_some() {
            return Err(SimError::ProtocolViolation);
        }
        let peer = path[1];
        let ghost p = path@;
        let ghost pend0 = self.pending_requests@;
        let req = Request { received, epr, status: Status::Queued, path };
        proof {
            lemma_unique_push(pend0, req);
        }
        self.pending_requests.push(req);
        let ghost n = self.pending_requests@.len();
        let events = self.schedule_pending_requests(peer);
        proof {
            assert(same_request(self.pending_requests@[n - 1], self.pending_spec().last()));
        }
        Ok(events)
    }

    /// A hop of an entanglement request reached this node. At the target,
    /// lock the pair shared with the previous hop and complete after the
    /// corrections (`corrections` of them, at most two, are needed on paths
    /// of more than one hop); if the pair is not valid there, or this node
    /// is not the target, the hop fails back to the previous node.
    pub fn handle_es_request(&mut self, data: EsRequestData, corrections: u8) -> (r: Result<Vec<Event>, SimError>)
        requires
            old(self).wf(),
        ensures
            holds_no_new(*old(self), *final(self)),
            final(self).wf(),
            final(self).node_id_spec() == old(self).node_id_spec(),
            final(self).pending_spec() == old(self).pending_spec(),
            final(self).ports_spec() == old(self).ports_spec(),
            final(self).nics_spec(Role::Master) == old(self).nics_spec(Role::Master),
            data.next_hop != old(self).node_id_spec() ==> r == Err::<Vec<Event>, SimError>(
                SimError::ProtocolViolation,
            ),
            data.next_hop == old(self).node_id_spec() && data.epr.target_node_id != old(self).node_id_spec()
                ==> r is Ok && r.unwrap()@ == seq![failure_to_prev(old(self).node_id_spec(), data)],
            data.next_hop == old(self).node_id_spec() && data.epr.target_node_id == old(self).node_id_spec()
                ==> match cells_of(old(self).nics_spec(Role::Slave), data.prev_hop) {
                None => r == Err::<Vec<Event>, SimError>(SimError::PathUnreachable),
                Some(c0) => if exists|i: int| first_holding(c0, data.local_pair_id, i) && c0[i] is Valid {
                    let delay = if data.hops <= 1 || corrections == 0 {
                        0
                    } else if corrections == 1 {
                        old(self).correction_ns_spec()
                    } else {
                        (2 * old(self).correction_ns_spec()) as u64
                    };
                    &&& r is Ok
                    &&& r.unwrap()@ == seq![local_complete(delay, data)]
                    &&& exists|i: int|
                        first_holding(c0, data.local_pair_id, i) && cells_of(
                            final(self).nics_spec(Role::Slave),
                            data.prev_hop,
                        ) == Some(c0.update(i, MemoryCell::Used(c0[i].data_spec().unwrap())))
                } else {
                    r is Ok && r.unwrap()@ == seq![failure_to_prev(old(self).node_id_spec(), data)] && cells_of(
                        final(self).nics_spec(Role::Slave),
                        data.prev_hop,
                    ) == Some(c0)
                },
            },
    {
        if data.next_hop != self.node_id {
            return Err(SimError::ProtocolViolation);
        }
        if data.epr.target_node_id != self.node_id {
            return Ok(vec![Event::new_transfer(EventType::NodeEvent(NodeEventData::EsFailure(data)), self.node_id, data.prev_hop)]);
        }
        let i = match self.find_nic(Role::Slave, data.prev_hop) {
            Some(i) => i,
            None => {
                return Err(SimError::PathUnreachable);
            },
        };
        let ghost nics0 = self.nics_slave@;
        proof {
            lemma_cells_at(nics0, i as int);
        }
        let locked = self.nics_slave[i].nic.used(data.local_pair_id);
        proof {
            let nics1 = self.nics_slave@;
            assert(nics1 =~= nics0.update(i as int, nics1[i as int]));
            lemma_replace_nic(nics0, i as int, nics1[i as int]);
        }
        if locked {
            let delay: u64 = if data.hops <= 1 || corrections == 0 {
                0
            } else if corrections == 1 {
                self.correction_ns
            } else {
                2 * self.correction_ns
            };
            Ok(vec![Event::new(delay, EventType::NodeEvent(NodeEventData::EsLocalComplete(data)))])
        } else {
            Ok(vec![Event::new_transfer(EventType::NodeEvent(NodeEventData::EsFailure(data)), self.node_id, data.prev_hop)])
        }
    }

    /// The target finished its corrections: tell the source, and hand the
    /// pair to the local application.
    pub fn handle_es_local_complete(&self, data: EsRequestData) -> (r: Result<Vec<Event>, SimError>)
        ensures
            data.epr.target_node_id != self.node_id_spec() ==> r == Err::<Vec<Event>, SimError>(
                SimError::ProtocolViolation,
            ),
            data.epr.target_node_id == self.node_id_spec() ==> r is Ok && r.unwrap()@ == seq![
                Event {
                    time: 0,
                    event_type: EventType::NodeEvent(NodeEventData::EsRemoteComplete(data.epr)),
                    transfer: Some(
                        crate::event::Transfer {
                            src_node: self.node_id_spec(),
                            dst_node: data.epr.source_node_id,
                            done: false,
                        },
                    ),
                },
                Event {
                    time: 0,
                    event_type: EventType::AppEvent(
                        AppEventData::EprResponse(
                            EprResponseData {
                                epr: data.epr,
                                is_source: false,
                                memory_cell: Some(
                                    MemoryCellId {
                                        neighbor_node_id: data.prev_hop,
                                        role: Role::Slave,
                                        local_pair_id: data.local_pair_id,
                                    },
                                ),
                            },
                        ),
                    ),
                    transfer: None,
                },
            ],
    {
        if data.epr.target_node_id != self.node_id {
            return Err(SimError::ProtocolViolation);
        }
        let cell = MemoryCellId { neighbor_node_id: data.prev_hop, role: Role::Slave, local_pair_id: data.local_pair_id };
        Ok(
            vec![
                Event::new_transfer(
                    EventType::NodeEvent(NodeEventData::EsRemoteComplete(data.epr)),
                    self.node_id,
                    data.epr.source_node_id,
                ),
                Event::new(
                    0,
                    EventType::AppEvent(
                        AppEventData::EprResponse(EprResponseData { epr: data.epr, is_source: false, memory_cell: Some(cell) }),
                    ),
                ),
            ],
        )
    }

    /// The source learns that its request is complete: hand the locked pair
    /// to the requesting application and record the latency since the
    /// request was first issued. The request must be pending and waiting.
    pub fn handle_es_remote_complete(&mut self, now: u64, epr: EprFiveTuple) -> (r: Result<(Vec<Event>, LatencySample), SimError>)
        requires
            old(self).wf(),
        ensures
            holds_no_new(*old(self), *final(self)),
            final(self).wf(),
            final(self).node_id_spec() == old(self).node_id_spec(),
            final(self).ports_spec() == old(self).ports_spec(),
            final(self).nics_spec(Role::Master) == old(self).nics_spec(Role::Master),
            final(self).nics_spec(Role::Slave) == old(self).nics_spec(Role::Slave),
            r is Err ==> *final(self) == *old(self),
            r is Ok <==> (exists|j: int| completes_at(old(self).pending_spec(), epr, now, j)),
            r matches Ok((evs, sample)) ==> (exists|j: int|
                completes_at(old(self).pending_spec(), epr, now, j) && final(self).pending_spec()
                    == old(self).pending_spec().remove(j) && evs@ == seq![
                    response_to_source(epr, old(self).pending_spec()[j].status),
                ] && sample == latency_of(old(self).node_id_spec(), old(self).pending_spec()[j], now)),
    {
        let j = match find_request(&self.pending_requests, epr) {
            Some(j) => j,
            None => {
                return Err(SimError::ProtocolViolation);
            },
        };
        let cell = match self.pending_requests[j].status {
            Status::WaitingForResponse(cell) => cell,
            Status::Queued => {
                return Err(SimError::ProtocolViolation);
            },
        };
        if now < self.pending_requests[j].received {
            return Err(SimError::ProtocolViolation);
        }
        let ghost p0 = self.pending_requests@;
        assert(completes_at(p0, epr, now, j as int));
        let request = self.pending_requests.remove(j);
        proof {
            lemma_unique_remove(p0, j as int);
            assert forall|k: int| 0 <= k < self.pending_requests@.len() implies request_ok(
                self.node_id,
                (#[trigger] self.pending_requests@[k]).epr,
                self.pending_requests@[k].path@,
            ) by {
                if k < j {
                    assert(self.pending_requests@[k] == p0[k]);
                } else {
                    assert(self.pending_requests@[k] == p0[k + 1]);
                }
            }
        }
        let sample = LatencySample {
            node_id: self.node_id,
            hops: (request.path.len() - 1) as u64,
            latency_ns: now - request.received,
        };
        let events = vec![
            Event::new(
                0,
                EventType::AppEvent(AppEventData::EprResponse(EprResponseData { epr, is_source: true, memory_cell: Some(cell) })),
            ),
        ];
        proof {
            assert(p0 == old(self).pending_spec());
            assert(completes_at(old(self).pending_spec(), epr, now, j as int));
            assert(self.pending_spec() == old(self).pending_spec().remove(j as int));
            assert(events@ =~= seq![response_to_source(epr, old(self).pending_spec()[j as int].status)]);
            assert(sample == latency_of(old(self).node_id_spec(), old(self).pending_spec()[j as int], now));
        }
        Ok((events, sample))
    }

    /// A request of this node failed on its path: free the pair locked for
    /// it and queue it again, keeping when it was first issued; a failure for
    /// no pending request is ignored.
    pub fn handle_es_failure(&mut self, data: EsRequestData) -> (r: Result<Vec<Event>, SimError>)
        requires
            old(self).wf(),
        ensures
            holds_no_new(*old(self), *final(self)),
            final(self).wf(),
            final(self).node_id_spec() == old(self).node_id_spec(),
            final(self).ports_spec() == old(self).ports_spec(),
            data.epr.source_node_id != old(self).node_id_spec() ==> r is Ok && r.unwrap()@ == seq![
                failure_back(old(self).node_id_spec(), data),
            ] && *final(self) == *old(self),
            (data.epr.source_node_id == old(self).node_id_spec() && !pending_has(old(self).pending_spec(), data.epr))
                ==> r is Ok && r.unwrap()@.len() == 0 && *final(self) == *old(self),
            (data.epr.source_node_id == old(self).node_id_spec() && pending_has(old(self).pending_spec(), data.epr))
                ==> r is Ok && exists|j: int| #[trigger] requeued(*old(self), *final(self), data.epr, j) && sends_in_order(
                    old(self).node_id_spec(),
                    first_hop(old(self).pending_spec()[j]),
                    old(self).pending_spec().remove(j).push((Request { status: Status::Queued, ..old(self).pending_spec()[j] })),
                    final(self).pending_spec(),
                    r.unwrap()@,
                ) && peer_drained(
                    *final(self),
                    first_hop(old(self).pending_spec()[j]),
                    cells_of(old(self).nics_spec(Role::Master), first_hop(old(self).pending_spec()[j])),
                ),
    {
        if data.epr.source_node_id != self.node_id {
            return Ok(vec![Event::new_transfer(EventType::NodeEvent(NodeEventData::EsFailure(data)), self.node_id, data.epr.source_node_id)]);
        }
        let j = match find_request(&self.pending_requests, data.epr) {
            Some(j) => j,
            None => {
                return Ok(Vec::new());
            },
        };
        let ghost p0 = self.pending_requests@;
        let request = self.pending_requests.remove(j);
        proof {
            assert forall|k: int| 0 <= k < self.pending_requests@.len() implies request_ok(
                self.node_id,
                (#[trigger] self.pending_requests@[k]).epr,
                self.pending_requests@[k].path@,
            ) by {
                if k < j {
                    assert(self.pending_requests@[k] == p0[k]);
                } else {
                    assert(self.pending_requests@[k] == p0[k + 1]);
                }
            }
        }
        proof {
            lemma_unique_remove(p0, j as int);
        }
        let ghost mid0 = *self;
        if let Status::WaitingForResponse(cell) = request.status {
            let _ = self.consume(cell.neighbor_node_id, Role::Master, cell.local_pair_id);
        }
        let ghost mid = *self;
        let Request { received, epr, status: _, path } = request;
        let ghost req_path = path@;
        match self.handle_epr_request_app(received, epr, path) {
            Ok(events) => {
                proof {
                    assert(p0 == old(self).pending_spec());
                    assert(mid.pending_spec() == p0.remove(j as int));
                    assert forall|k: int| 0 <= k < p0.len() - 1 implies same_request(p0.remove(j as int)[k], #[trigger] self.pending_spec()[k]) by {
                        assert(same_request(mid.pending_spec()[k], self.pending_spec()[k]));
                    }
                    if let Status::WaitingForResponse(c) = p0[j as int].status {
                        if c.role == Role::Master {
                            let nb = c.neighbor_node_id;
                            let a0 = cells_of(old(self).nics_spec(Role::Master), nb);
                            let a1 = cells_of(mid.nics_spec(Role::Master), nb);
                            let a2 = cells_of(self.nics_spec(Role::Master), nb);
                            if let Some(x) = a0 {
                                if !holds_none(x, c.local_pair_id) {
                                    let i = choose|i: int| first_holding(x, c.local_pair_id, i) && a1 == Some(x.update(i, MemoryCell::Empty));
                                    if nb == req_path[1] {
                                        assert(locked_at(a1, a2));
                                    } else {
                                        assert(a2 == a1);
                                    }
                                    assert(a2.unwrap()[i] is Empty);
                                }
                            }
                            if nb != req_path[1] {
                                assert(a2 == a1);
                            }
                        }
                    }
                    assert(requeued(*old(self), *self, data.epr, j as int));
                    let peer = req_path[1];
                    assert(peer == first_hop(p0[j as int]));
                    assert(mid.pending_spec().push((Request { received, epr, status: Status::Queued, path: p0[j as int].path }))
                        == p0.remove(j as int).push((Request { status: Status::Queued, ..p0[j as int] })));
                    let o = cells_of(old(self).nics_spec(Role::Master), peer);
                    let m1 = cells_of(mid.nics_spec(Role::Master), peer);
                    if o is Some && ids_unique(o.unwrap()) {
                        if let Status::WaitingForResponse(c) = p0[j as int].status {
                            if c.role == Role::Master && c.neighbor_node_id == peer && !holds_none(o.unwrap(), c.local_pair_id) {
                                let i = choose|i: int| first_holding(o.unwrap(), c.local_pair_id, i) && m1 == Some(o.unwrap().update(i, MemoryCell::Empty));
                                lemma_unique_after_update(o.unwrap(), i, MemoryCell::Empty);
                            }
                        }
                        assert(m1 is Some && ids_unique(m1.unwrap()));
                    }
                }
                Ok(events)
            },
            Err(e) => {
                proof {
                    assert(false);
                }
                Err(e)
            },
        }
    }
}


impl Node {
    /// Add an application listening on `port`. Return false, and add
    /// nothing, if the port is taken.
    pub fn add_application(&mut self, app: Application, port: u16) -> (r: bool)
        requires
            old(self).wf(),
        ensures
            holds_no_new(*old(self), *final(self)),
            final(self).wf(),
            final(self).node_id_spec() == old(self).node_id_spec(),
            final(self).pending_spec() == old(self).pending_spec(),
            final(self).nics_spec(Role::Master) == old(self).nics_spec(Role::Master),
            final(self).nics_spec(Role::Slave) == old(self).nics_spec(Role::Slave),
            r == !old(self).ports_spec().contains(port),
            r ==> final(self).ports_spec() == old(self).ports_spec().push(port),
            r ==> final(self).apps_spec() == old(self).apps_spec().push(AppSlot { port, app }),
            !r ==> *final(self) == *old(self),
    {
        match self.find_app(port) {
            Some(_) => false,
            None => {
                let ghost a0 = self.applications@;
                self.applications.push(AppSlot { port, app });
                proof {
                    assert(self.ports_spec() =~= a0.map_values(|a: AppSlot| a.port).push(port));
                    assert forall|i: int, j: int|
                        0 <= i < self.applications@.len() && 0 <= j < self.applications@.len()
                            && (#[trigger] self.applications@[i]).port == (#[trigger] self.applications@[j]).port
                            implies i == j by {
                        if i < a0.len() && j == a0.len() {
                            assert(a0.map_values(|a: AppSlot| a.port)[i] == port);
                        }
                        if j < a0.len() && i == a0.len() {
                            assert(a0.map_values(|a: AppSlot| a.port)[j] == port);
                        }
                    }
                }
                true
            },
        }
    }

    /// Index of the application on `port`.
    fn find_app(&self, port: u16) -> (r: Option<usize>)
        ensures
            r is None <==> !self.ports_spec().contains(port),
            r matches Some(i) ==> i < self.applications@.len() && self.applications@[i as int].port == port,
    {
        let mut i: usize = 0;
        while i < self.applications.len()
            invariant
                i <= self.applications@.len(),
                forall|k: int| 0 <= k < i ==> (#[trigger] self.applications@[k]).port != port,
            decreases self.applications@.len() - i,
        {
            if self.applications[i].port == port {
                assert(self.ports_spec()[i as int] == port);
                return Some(i);
            }
            i = i + 1;
        }
        proof {
            if self.ports_spec().contains(port) {
                let k = choose|k: int| 0 <= k < self.ports_spec().len() && self.ports_spec()[k] == port;
                assert(self.applications@[k].port == port);
            }
        }
        None
    }

    /// The lowest port where no application listens, if any.
    pub fn next_port(&self) -> (r: Option<u16>)
        ensures
            r matches Some(p) ==> !self.ports_spec().contains(p) && forall|q: u16| q < p ==> self.ports_spec().contains(q),
            r is None ==> forall|q: u16| self.ports_spec().contains(q),
    {
        let mut port: u16 = 0;
        loop
            invariant
                forall|q: u16| q < port ==> self.ports_spec().contains(q),
            decreases 0x1_0000 - port,
        {
            if self.find_app(port).is_none() {
                return Some(port);
            }
            if port == 0xFFFF {
                return None;
            }
            port = port + 1;
        }
    }

    /// Route an application event to the application on its port;
    /// `app_delay_ns` is the random delay a client or server may need.
    pub fn handle_app_event(&mut self, event: Event, app_delay_ns: u64) -> (r: Result<(Vec<Event>, Vec<AppSample>), SimError>)
        requires
            old(self).wf(),
        ensures
            holds_no_new(*old(self), *final(self)),
            final(self).wf(),
            final(self).node_id_spec() == old(self).node_id_spec(),
            final(self).pending_spec() == old(self).pending_spec(),
            final(self).nics_spec(Role::Master) == old(self).nics_spec(Role::Master),
            final(self).nics_spec(Role::Slave) == old(self).nics_spec(Role::Slave),
            final(self).ports_spec() == old(self).ports_spec(),
            !(event.event_type is AppEvent) ==> r == Err::<(Vec<Event>, Vec<AppSample>), SimError>(
                SimError::ProtocolViolation,
            ),
            event.event_type matches EventType::AppEvent(d) && !old(self).ports_spec().contains(app_port(d))
                ==> r == Err::<(Vec<Event>, Vec<AppSample>), SimError>(SimError::ApplicationMissing),
            event.event_type is AppEvent && old(self).ports_spec().contains(event_port(event)) ==> exists|i: int|
                0 <= i < old(self).apps_spec().len() && (#[trigger] old(self).apps_spec()[i]).port == event_port(event)
                    && final(self).apps_spec().len() == old(self).apps_spec().len()
                    && final(self).apps_spec()[i].port == event_port(event)
                    && (forall|k: int| 0 <= k < old(self).apps_spec().len() && k != i ==> #[trigger] final(self).apps_spec()[k] == old(self).apps_spec()[k])
                    && app_handled(old(self).apps_spec()[i].app, final(self).apps_spec()[i].app, event, app_delay_ns, r),
    {
        let port = match &event.event_type {
            EventType::AppEvent(d) => app_port_exec(d),
            _ => {
                return Err(SimError::ProtocolViolation);
            },
        };
        let i = match self.find_app(port) {
            Some(i) => i,
            None => {
                return Err(SimError::ApplicationMissing);
            },
        };
        let ghost a0 = self.applications@;
        let ghost mut gp: Result<(Vec<Event>, Vec<crate::apps::pinger::RttSample>), SimError> = Err(SimError::ProtocolViolation);
        let ghost mut gq: Result<Vec<Event>, SimError> = Err(SimError::ProtocolViolation);
        let r = match &mut self.applications[i].app {
            Application::Pinger(p) => {
                let r1 = p.handle(event);
                let ghost g1 = r1;
                proof {
                    gp = g1;
                }
                match r1 {
                    Ok((events, rtts)) => {
                        let mut samples: Vec<AppSample> = Vec::new();
                        let mut k: usize = 0;
                        while k < rtts.len()
                            invariant
                                k <= rtts@.len(),
                                samples@ =~= rtts@.subrange(0, k as int).map_values(|x: crate::apps::pinger::RttSample| AppSample::Rtt(x)),
                            decreases rtts@.len() - k,
                        {
                            samples.push(AppSample::Rtt(rtts[k]));
                            k = k + 1;
                        }
                        assert(rtts@.subrange(0, k as int) =~= rtts@);
                        Ok((events, samples))
                    },
                    Err(e) => Err(e),
                }
            },
            Application::Ponger(p) => {
                let r1 = p.handle(event);
                let ghost g1 = r1;
                proof {
                    gq = g1;
                }
                match r1 {
                    Ok(events) => {
                        let v: Vec<AppSample> = Vec::new();
                        assert(v@.len() == 0);
                        Ok((events, v))
                    },
                    Err(e) => Err(e),
                }
            },
            Application::Client(c) => c.handle(event, app_delay_ns),
            Application::Server(sv) => sv.handle(event, app_delay_ns),
        };
        proof {
            assert(self.applications@[i as int].port == a0[i as int].port);
            assert(self.applications@ =~= a0.update(i as int, self.applications@[i as int]));
            assert forall|k: int| 0 <= k < a0.len() implies (#[trigger] self.applications@[k]).port == a0[k].port by {}
            assert(self.ports_spec() =~= a0.map_values(|a: AppSlot| a.port));
            match (a0[i as int].app, self.applications@[i as int].app) {
                (Application::Pinger(p), Application::Pinger(q)) => {
                    assert(pinger_handled(p, q, event, gp));
                },
                (Application::Ponger(p), Application::Ponger(q)) => {
                    assert(ponger_handled(p, event, gq));
                },
                _ => {},
            }
            assert(app_handled(a0[i as int].app, self.applications@[i as int].app, event, app_delay_ns, r));
            assert(a0 == old(self).apps_spec());
            assert(port == event_port(event));
            assert(forall|k: int| 0 <= k < a0.len() && k != i ==> #[trigger] self.apps_spec()[k] == a0[k]);
            assert(0 <= i < a0.len() && a0[i as int].port == event_port(event) && self.apps_spec().len() == a0.len()
                && self.apps_spec()[i as int].port == event_port(event));
        }
        r
    }

    /// The first events of every application.
    pub fn initial(&self) -> (r: Vec<Event>) {
        let mut events: Vec<Event> = Vec::new();
        let mut i: usize = 0;
        while i < self.applications.len()
            invariant
                i <= self.applications@.len(),
            decreases self.applications@.len() - i,
        {
            let mut more = match &self.applications[i].app {
                Application::Pinger(p) => p.initial(),
                Application::Ponger(p) => p.initial(),
                Application::Client(c) => c.initial(),
                Application::Server(sv) => sv.initial(),
            };
            events.append(&mut more);
            i = i + 1;
        }
        events
    }
}


/// True if some cell of the NICs holds pair `id`.
fn nics_hold_exec(nics: &Vec<PeerNic>, id: u64) -> (r: bool)
    ensures
        r == nics_hold(nics@, id),
{
    let mut i: usize = 0;
    while i < nics.len()
        invariant
            i <= nics@.len(),
            forall|a: int, k: int| 0 <= a < i && 0 <= k < nics@[a].nic@.len() ==> !(#[trigger] nics@[a].nic@[k]).holds(id),
        decreases nics@.len() - i,
    {
        let cells = nics[i].nic.memory_cells();
        let mut k: usize = 0;
        while k < cells.len()
            invariant
                i < nics@.len(),
                cells@ == nics@[i as int].nic@,
                k <= cells@.len(),
                forall|a: int, q: int| 0 <= a < i && 0 <= q < nics@[a].nic@.len() ==> !(#[trigger] nics@[a].nic@[q]).holds(id),
                forall|q: int| 0 <= q < k ==> !(#[trigger] cells@[q]).holds(id),
            decreases cells@.len() - k,
        {
            if cells[k].local_pair_id() == Some(id) {
                assert(nics@[i as int].nic@[k as int].holds(id));
                return true;
            }
            k = k + 1;
        }
        i = i + 1;
    }
    false
}

impl Node {
    /// True if some NIC of the node holds pair `id`.
    pub fn holds_pair(&self, id: u64) -> (r: bool)
        ensures
            r == node_holds(*self, id),
    {
        nics_hold_exec(&self.nics_master, id) || nics_hold_exec(&self.nics_slave, id)
    }
}

/// A new node holds no pair.
pub proof fn lemma_new_node_holds_nothing(n: Node, x: u64)
    requires
        n.nics_spec(Role::Master).len() == 0,
        n.nics_spec(Role::Slave).len() == 0,
    ensures
        !node_holds(n, x),
{
}

/// The first cell holding pair `id` is valid.
pub open spec fn valid_first(cells: Option<Seq<MemoryCell>>, id: u64) -> bool {
    match cells {
        Some(c) => exists|i: int| first_holding(c, id, i) && c[i] is Valid,
        None => false,
    }
}

/// The NIC is there and has a valid cell.
pub open spec fn has_valid_opt(cells: Option<Seq<MemoryCell>>) -> bool {
    match cells {
        Some(c) => has_valid(c),
        None => false,
    }
}

/// `id` is the pair of the newest valid cell of the NIC.
pub open spec fn newest_of(cells: Option<Seq<MemoryCell>>, id: u64) -> bool {
    match cells {
        Some(c) => exists|k: int| newest_valid_at(c, k) && c[k].data_spec().unwrap().local_pair_id == id,
        None => false,
    }
}

/// The hop of a request that a node sends on after swapping: its own pair
/// `local_pair_id` with `next` now carries the request.
pub open spec fn forward(node_id: u32, next: u32, data: EsRequestData, local_pair_id: u64) -> Event {
    Event {
        time: 0,
        event_type: EventType::NodeEvent(
            NodeEventData::EsRequest(EsRequestData { prev_hop: node_id, next_hop: next, local_pair_id, ..data }),
        ),
        transfer: Some(crate::event::Transfer { src_node: node_id, dst_node: next, done: false }),
    }
}

impl Node {
    /// A request reached this node in the middle of its path, with `next`
    /// the following node. Entanglement swapping: the pair shared with the
    /// previous hop must be valid here; if `swap_ok` (the measurement
    /// succeeded) and a valid pair with `next` is there, both local photons
    /// are measured, which frees their cells, and the request goes on to
    /// `next` over the newest such pair. Otherwise the request fails back to
    /// its source, and the cell of the previous hop is freed if it was
    /// valid.
    pub fn handle_es_swap(&mut self, data: EsRequestData, swap_ok: bool, next: u32) -> (r: Result<Vec<Event>, SimError>)
        requires
            old(self).wf(),
        ensures
            final(self).wf(),
            holds_no_new(*old(self), *final(self)),
            final(self).node_id_spec() == old(self).node_id_spec(),
            final(self).pending_spec() == old(self).pending_spec(),
            final(self).ports_spec() == old(self).ports_spec(),
            (data.next_hop != old(self).node_id_spec() || data.epr.target_node_id == old(self).node_id_spec())
                ==> r == Err::<Vec<Event>, SimError>(SimError::ProtocolViolation) && *final(self) == *old(self),
            (data.next_hop == old(self).node_id_spec() && data.epr.target_node_id != old(self).node_id_spec()
                && cells_of(old(self).nics_spec(Role::Slave), data.prev_hop) is None) ==> r == Err::<Vec<Event>, SimError>(
                SimError::PathUnreachable,
            ) && *final(self) == *old(self),
            r is Ok ==> r.unwrap()@.len() == 1 && (r.unwrap()@[0] == failure_back(old(self).node_id_spec(), data)
                || exists|id: u64| r.unwrap()@[0] == forward(old(self).node_id_spec(), next, data, id)),
            (data.next_hop == old(self).node_id_spec() && data.epr.target_node_id != old(self).node_id_spec()
                && cells_of(old(self).nics_spec(Role::Slave), data.prev_hop) is Some) ==> r is Ok,
            (r is Ok && swap_ok && valid_first(cells_of(old(self).nics_spec(Role::Slave), data.prev_hop), data.local_pair_id)
                && has_valid_opt(cells_of(old(self).nics_spec(Role::Master), next))) ==> exists|id: u64|
                #[trigger] forward(old(self).node_id_spec(), next, data, id) == r.unwrap()@[0],
            r is Ok && !swap_ok ==> r.unwrap()@[0] == failure_back(old(self).node_id_spec(), data),
            r is Ok && r.unwrap()@[0] != failure_back(old(self).node_id_spec(), data) ==> exists|id: u64|
                #[trigger] forward(old(self).node_id_spec(), next, data, id) == r.unwrap()@[0] && newest_of(
                    cells_of(old(self).nics_spec(Role::Master), next),
                    id,
                ),
            r is Ok ==> match cells_of(old(self).nics_spec(Role::Slave), data.prev_hop) {
                Some(c0) => if exists|i: int| first_holding(c0, data.local_pair_id, i) && c0[i] is Valid {
                    exists|i: int|
                        first_holding(c0, data.local_pair_id, i) && cells_of(final(self).nics_spec(Role::Slave), data.prev_hop)
                            == Some(c0.update(i, MemoryCell::Empty))
                } else {
                    cells_of(final(self).nics_spec(Role::Slave), data.prev_hop) == Some(c0) && r.unwrap()@[0]
                        == failure_back(old(self).node_id_spec(), data)
                },
                None => false,
            },
    {
        if data.next_hop != self.node_id || data.epr.target_node_id == self.node_id {
            return Err(SimError::ProtocolViolation);
        }
        let si = match self.find_nic(Role::Slave, data.prev_hop) {
            Some(i) => i,
            None => {
                return Err(SimError::PathUnreachable);
            },
        };
        let ghost s0 = self.nics_slave@;
        let ghost c0 = s0[si as int].nic@;
        proof {
            lemma_cells_at(s0, si as int);
        }
        let ghost m_start = self.nics_master@;
        let locked = self.nics_slave[si].nic.used(data.local_pair_id);
        let ghost s1 = self.nics_slave@;
        proof {
            assert(s1 =~= s0.update(si as int, s1[si as int]));
            lemma_replace_nic(s0, si as int, s1[si as int]);
        }
        let fail = Event::new_transfer(EventType::NodeEvent(NodeEventData::EsFailure(data)), self.node_id, data.epr.source_node_id);
        if !locked {
            proof {
                assert forall|x: u64| #[trigger] node_holds(*self, x) implies node_holds(*old(self), x) by {
                    if nics_hold(self.nics_slave@, x) {
                        lemma_hold_shrinks(s0, si as int, s1[si as int], x);
                    }
                }
            }
            return Ok(vec![fail]);
        }
        let ghost c1 = s1[si as int].nic@;
        let freed = self.nics_slave[si].nic.consume(data.local_pair_id);
        let ghost s2 = self.nics_slave@;
        proof {
            let i = choose|i: int|
                first_holding(c0, data.local_pair_id, i) && c1 == c0.update(i, MemoryCell::Used(c0[i].data_spec().unwrap()));
            assert(first_holding(c1, data.local_pair_id, i));
            let k = choose|k: int| first_holding(c1, data.local_pair_id, k) && s2[si as int].nic@ == c1.update(k, MemoryCell::Empty);
            if k < i {
                assert(c1[k] == c0[k]);
            } else if k > i {
                assert(c1[i].holds(data.local_pair_id));
            }
            assert(s2[si as int].nic@ =~= c0.update(i, MemoryCell::Empty));
            assert(s2 =~= s0.update(si as int, s2[si as int]));
            lemma_replace_nic(s0, si as int, s2[si as int]);
            assert(cells_shrink(c0, s2[si as int].nic@));
        }
        let mi = self.find_nic(Role::Master, next);
        let ghost mnics0 = self.nics_master@;
        proof {
            assert(m_start =~= old(self).nics_spec(Role::Master));
            assert(mnics0 =~= m_start);
            if mi is None {
                assert(!exists|i: int| peer_index(self.nics_spec(Role::Master), next, i));
                assert(self.nics_spec(Role::Master) =~= mnics0);
                assert(!exists|i: int| peer_index(mnics0, next, i));
                assert(cells_of(mnics0, next) is None);
            } else {
                lemma_cells_at(mnics0, mi.unwrap() as int);
                assert(cells_of(mnics0, next) == Some(mnics0[mi.unwrap() as int].nic@));
            }
        }
        let mut out = fail;
        let ghost mut sent: Option<u64> = None;
        if swap_ok && mi.is_some() {
            let mi = mi.unwrap();
            proof {
                lemma_cells_at(mnics0, mi as int);
            }
            match self.nics_master[mi].nic.newest_valid() {
                Some(id) => {
                    let ghost m0 = mnics0[mi as int].nic@;
                    let _ = self.nics_master[mi].nic.consume(id);
                    proof {
                        let m1 = self.nics_master@;
                        assert(m1 =~= mnics0.update(mi as int, m1[mi as int]));
                        lemma_replace_nic(mnics0, mi as int, m1[mi as int]);
                        assert(cells_shrink(m0, m1[mi as int].nic@));
                        assert forall|x: u64| nics_hold(m1, x) implies nics_hold(mnics0, x) by {
                            lemma_hold_shrinks(mnics0, mi as int, m1[mi as int], x);
                        }
                    }
                    let e = Event::new_transfer(
                        EventType::NodeEvent(
                            NodeEventData::EsRequest(
                                EsRequestData { epr: data.epr, prev_hop: self.node_id, next_hop: next, hops: data.hops, local_pair_id: id },
                            ),
                        ),
                        self.node_id,
                        next,
                    );
                    assert(e == forward(old(self).node_id_spec(), next, data, id));
                    assert(cells_of(old(self).nics_spec(Role::Master), next) == Some(m0));
                    assert(newest_of(Some(m0), id));
                    out = e;
                    proof {
                        sent = Some(id);
                    }
                },
                None => {},
            }
        }
        proof {
            assert(peers_unique(self.nics_master@));
            assert(forall|x: u64| nics_hold(self.nics_master@, x) ==> nics_hold(mnics0, x));
            if sent is Some {
                let id = sent.unwrap();
                assert(forward(old(self).node_id_spec(), next, data, id) == out);
                assert(newest_of(cells_of(old(self).nics_spec(Role::Master), next), id));
            } else {
                assert(out == fail);
            }
        }
        proof {
            assert forall|x: u64| #[trigger] node_holds(*self, x) implies node_holds(*old(self), x) by {
                if nics_hold(self.nics_slave@, x) {
                    lemma_hold_shrinks(s0, si as int, s2[si as int], x);
                }
            }
            assert(peers_unique(self.nics_slave@));
            assert(peers_unique(self.nics_master@));
        }
        Ok(vec![out])
    }
}

/// The ports of a well-formed node are distinct.
pub proof fn lemma_ports_distinct(n: Node)
    requires
        n.wf(),
    ensures
        n.ports_spec().no_duplicates(),
{
    let ps = n.ports_spec();
    assert forall|i: int, j: int| 0 <= i < ps.len() && 0 <= j < ps.len() && i != j implies ps[i] != ps[j] by {
        assert(ps[i] == n.applications@[i].port && ps[j] == n.applications@[j].port);
    }
}

} // verus!
