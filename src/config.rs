//! Configuration of a replication that the library reads, and the setup of
//! its applications.

use crate::apps::client::Client;
use crate::apps::pinger::Pinger;
use crate::apps::ponger::Ponger;
use crate::apps::server::Server;
use crate::error::SimError;
use crate::network::{lemma_node_wf, Network};
use crate::node::{Application, Node};
use crate::outside::{draw_below, seeded_rng};
use crate::physical_topology::{GridSize, NodeType, NodeWeight};
use vstd::prelude::*;

verus! {

/// Which ground stations talk to each other.
#[derive(Debug, PartialEq, Eq, Clone, Copy, Structural)]
pub enum SourceDestPairs {
    /// This many pairs of distinct stations, drawn at random.
    Random(usize),
    /// Every ordered pair of distinct stations.
    AllToAll,
}

/// Pinger/ponger applications.
#[derive(Debug, PartialEq, Eq, Clone, Copy, Structural)]
pub struct ConfPing {
    pub source_dest_pairs: SourceDestPairs,
    pub max_requests: u64,
}

/// The integer part of a grid topology configuration: its size and the
/// resources of satellites and stations.
#[derive(Debug, PartialEq, Eq, Clone, Copy, Structural)]
pub struct ConfGridStatic {
    pub grid_params: GridSize,
    pub sat_weight: NodeWeight,
    pub ogs_weight: NodeWeight,
}

/// Satellites of the default configuration.
pub open spec fn default_sat() -> NodeWeight {
    NodeWeight { node_type: NodeType::SAT, memory_qubits: 20, detectors: 10, transmitters: 10, capacity_mpps: 1_000_000 }
}

/// Ground stations of the default configuration.
pub open spec fn default_ogs() -> NodeWeight {
    NodeWeight { node_type: NodeType::OGS, memory_qubits: 100, detectors: 10, transmitters: 0, capacity_mpps: 0 }
}

/// Satellites of the default configuration.
pub fn default_sat_weight() -> (r: NodeWeight)
    ensures
        r == default_sat(),
{
    NodeWeight { node_type: NodeType::SAT, memory_qubits: 20, detectors: 10, transmitters: 10, capacity_mpps: 1_000_000 }
}

/// Ground stations of the default configuration.
pub fn default_ogs_weight() -> (r: NodeWeight)
    ensures
        r == default_ogs(),
{
    NodeWeight { node_type: NodeType::OGS, memory_qubits: 100, detectors: 10, transmitters: 0, capacity_mpps: 0 }
}

impl ConfGridStatic {
    /// Three orbits of four satellites, with the default weights.
    pub fn new_default() -> (r: Self)
        ensures
            r.grid_params == (GridSize { num_orbits: 3, orbit_length: 4 }),
            r.sat_weight == default_sat(),
            r.ogs_weight == default_ogs(),
    {
        ConfGridStatic {
            grid_params: GridSize { num_orbits: 3, orbit_length: 4 },
            sat_weight: default_sat_weight(),
            ogs_weight: default_ogs_weight(),
        }
    }
}

/// `pairs` are pairs of distinct stations as `conf` asks: every ordered
/// pair, or `n` of them.
pub open spec fn drawn_pairs(conf: SourceDestPairs, ogs: Seq<u32>, pairs: Seq<(u32, u32)>) -> bool {
    &&& forall|k: int| 0 <= k < pairs.len() ==> (#[trigger] pairs[k]).0 != pairs[k].1 && ogs.contains(pairs[k].0) && ogs.contains(pairs[k].1)
    &&& conf is AllToAll ==> pairs.len() == ogs.len() * (ogs.len() - 1) && forall|a: u32, b: u32|
        a != b && ogs.contains(a) && ogs.contains(b) ==> #[trigger] pairs.contains((a, b))
    &&& conf matches SourceDestPairs::Random(n) ==> pairs.len() == n
}

/// The pairs of distinct stations of `ogs_indices` that get an application
/// each: every ordered pair, or `n` pairs drawn with a generator seeded by
/// `seed`, the second uniform among the stations other than the first.
pub fn source_destination_pairs(conf: SourceDestPairs, ogs_indices: &Vec<u32>, seed: u64) -> (r: Vec<(u32, u32)>)
    requires
        ogs_indices@.len() >= 2,
        forall|a: int, b: int| 0 <= a < b < ogs_indices@.len() ==> ogs_indices@[a] != ogs_indices@[b],
    ensures
        drawn_pairs(conf, ogs_indices@, r@),
{
    let len = ogs_indices.len();
    let mut pairs: Vec<(u32, u32)> = Vec::new();
    match conf {
        SourceDestPairs::Random(n) => {
            let mut rng = seeded_rng(seed);
            let mut k: usize = 0;
            while k < n
                invariant
                    k <= n,
                    len == ogs_indices@.len() >= 2,
                    forall|a: int, b: int| 0 <= a < b < ogs_indices@.len() ==> ogs_indices@[a] != ogs_indices@[b],
                    pairs@.len() == k,
                    forall|q: int|
                        0 <= q < pairs@.len() ==> (#[trigger] pairs@[q]).0 != pairs@[q].1 && ogs_indices@.contains(pairs@[q].0)
                            && ogs_indices@.contains(pairs@[q].1),
                decreases n - k,
            {
                let a = draw_below(len, &mut rng);
                let d = draw_below(len - 1, &mut rng);
                let b = if d < a {
                    d
                } else {
                    d + 1
                };
                let ghost p0 = pairs@;
                pairs.push((ogs_indices[a], ogs_indices[b]));
                proof {
                    assert(ogs_indices@.contains(ogs_indices@[a as int]));
                    assert(ogs_indices@.contains(ogs_indices@[b as int]));
                    assert forall|q: int|
                        0 <= q < pairs@.len() implies (#[trigger] pairs@[q]).0 != pairs@[q].1 && ogs_indices@.contains(
                            pairs@[q].0,
                        ) && ogs_indices@.contains(pairs@[q].1) by {
                        if q < p0.len() {
                            assert(pairs@[q] == p0[q]);
                        } else if a < b {
                            assert(ogs_indices@[a as int] != ogs_indices@[b as int]);
                        } else {
                            assert(ogs_indices@[b as int] != ogs_indices@[a as int]);
                        }
                    }
                }
                k = k + 1;
            }
        },
        SourceDestPairs::AllToAll => {
            let mut i: usize = 0;
            while i < len
                invariant
                    i <= len,
                    len == ogs_indices@.len() >= 2,
                    forall|a: int, b: int| 0 <= a < b < ogs_indices@.len() ==> ogs_indices@[a] != ogs_indices@[b],
                    pairs@.len() == i * (len - 1),
                    forall|q: int|
                        0 <= q < pairs@.len() ==> (#[trigger] pairs@[q]).0 != pairs@[q].1 && ogs_indices@.contains(pairs@[q].0)
                            && ogs_indices@.contains(pairs@[q].1),
                    forall|x: int, y: int|
                        0 <= x < i && 0 <= y < len && x != y ==> pairs@.contains((#[trigger] ogs_indices@[x], #[trigger] ogs_indices@[y])),
                decreases len - i,
            {
                let mut j: usize = 0;
                let ghost base = pairs@.len();
                while j < len
                    invariant
                        i < len,
                        j <= len,
                        len == ogs_indices@.len() >= 2,
                        forall|a: int, b: int| 0 <= a < b < ogs_indices@.len() ==> ogs_indices@[a] != ogs_indices@[b],
                        base == i * (len - 1),
                        pairs@.len() == base + if j <= i { j as int } else { j - 1 },
                        forall|q: int|
                            0 <= q < pairs@.len() ==> (#[trigger] pairs@[q]).0 != pairs@[q].1 && ogs_indices@.contains(pairs@[q].0)
                                && ogs_indices@.contains(pairs@[q].1),
                        forall|x: int, y: int|
                            ((0 <= x < i && 0 <= y < len) || (x == i && 0 <= y < j)) && x != y ==> pairs@.contains(
                                (#[trigger] ogs_indices@[x], #[trigger] ogs_indices@[y]),
                            ),
                    decreases len - j,
                {
                    if i != j {
                        let ghost p0 = pairs@;
                        pairs.push((ogs_indices[i], ogs_indices[j]));
                        proof {
                            assert(ogs_indices@.contains(ogs_indices@[i as int]));
                            assert(ogs_indices@.contains(ogs_indices@[j as int]));
                            if i < j {
                                assert(ogs_indices@[i as int] != ogs_indices@[j as int]);
                            } else {
                                assert(ogs_indices@[j as int] != ogs_indices@[i as int]);
                            }
                            assert forall|q: int|
                                0 <= q < pairs@.len() implies (#[trigger] pairs@[q]).0 != pairs@[q].1
                                    && ogs_indices@.contains(pairs@[q].0) && ogs_indices@.contains(pairs@[q].1) by {
                                if q < p0.len() {
                                    assert(pairs@[q] == p0[q]);
                                }
                            }
                            assert forall|x: int, y: int|
                                ((0 <= x < i && 0 <= y < len) || (x == i && 0 <= y < j + 1)) && x != y implies pairs@.contains(
                                    (#[trigger] ogs_indices@[x], #[trigger] ogs_indices@[y]),
                                ) by {
                                if x == i && y == j {
                                    assert(pairs@[pairs@.len() - 1] == (ogs_indices@[x], ogs_indices@[y]));
                                } else {
                                    let w = choose|w: int| 0 <= w < p0.len() && p0[w] == (ogs_indices@[x], ogs_indices@[y]);
                                    assert(pairs@[w] == p0[w]);
                                }
                            }
                        }
                    }
                    j = j + 1;
                }
                proof {
                    assert((i + 1) * (len - 1) == i * (len - 1) + (len - 1)) by (nonlinear_arith);
                }
                i = i + 1;
            }
            proof {
                assert forall|a: u32, b: u32|
                    a != b && ogs_indices@.contains(a) && ogs_indices@.contains(b) implies #[trigger] pairs@.contains((a, b)) by {
                    let x = choose|x: int| 0 <= x < len && ogs_indices@[x] == a;
                    let y = choose|y: int| 0 <= y < len && ogs_indices@[y] == b;
                    assert(pairs@.contains((ogs_indices@[x], ogs_indices@[y])));
                }
            }
        },
    }
    pairs
}

/// Port `p` is the lowest one not in `ports`.
pub open spec fn lowest_free(ports: Seq<u16>, p: u16) -> bool {
    !ports.contains(p) && forall|q: u16| q < p ==> ports.contains(q)
}

/// Some port is not in `ports`.
pub open spec fn has_free(ports: Seq<u16>) -> bool {
    exists|q: u16| !ports.contains(q)
}

/// Which pair of applications to install.
#[derive(Debug, PartialEq, Eq, Clone, Copy, Structural)]
pub enum AppKind {
    /// A pinger at the first station, a ponger at the second.
    PingPong { max_requests: u64 },
    /// A client at the first station, whose first request comes after
    /// `first_delay_ns`, and a server at the second.
    ClientServer { first_delay_ns: u64 },
}

/// The two applications installed for a pair, on ports `tp` and `pp`.
pub open spec fn apps_are(kind: AppKind, first: Application, second: Application, s: u32, tp: u16, d: u32, pp: u16) -> bool {
    match kind {
        AppKind::PingPong { max_requests } => {
            &&& first matches Application::Pinger(p) && pinger_is(p, s, tp, d, pp, max_requests)
            &&& second matches Application::Ponger(q) && q.this_node_id_spec() == d && q.this_port_spec() == pp
        },
        AppKind::ClientServer { first_delay_ns } => {
            &&& first matches Application::Client(c) && c.this_node_id_spec() == s && c.this_port_spec() == tp
                && c.peer_node_id_spec() == d && c.peer_port_spec() == pp && c.first_delay_spec() == first_delay_ns
                && c.issued() == 0 && c.pending_spec().len() == 0
            &&& second matches Application::Server(v) && v.this_node_id_spec() == d && v.this_port_spec() == pp
                && v.pending_spec().len() == 0
        },
    }
}

/// `b` is `a` with the applications of one pair installed: the first on
/// the lowest free port `tp` of station `s`, the second on the lowest free
/// port `pp` of station `d`; no other node changes.
pub open spec fn installed_pair(a: Seq<Node>, b: Seq<Node>, s: u32, d: u32, kind: AppKind, tp: u16, pp: u16) -> bool {
    &&& s < a.len()
    &&& d < a.len()
    &&& b.len() == a.len()
    &&& lowest_free(a[s as int].ports_spec(), tp)
    &&& lowest_free(a[d as int].ports_spec(), pp)
    &&& b[s as int].ports_spec() == a[s as int].ports_spec().push(tp)
    &&& b[d as int].ports_spec() == a[d as int].ports_spec().push(pp)
    &&& b[s as int].apps_spec().len() == a[s as int].apps_spec().len() + 1
    &&& b[s as int].apps_spec().drop_last() == a[s as int].apps_spec()
    &&& b[s as int].apps_spec().last().port == tp
    &&& b[d as int].apps_spec().len() == a[d as int].apps_spec().len() + 1
    &&& b[d as int].apps_spec().drop_last() == a[d as int].apps_spec()
    &&& b[d as int].apps_spec().last().port == pp
    &&& apps_are(kind, b[s as int].apps_spec().last().app, b[d as int].apps_spec().last().app, s, tp, d, pp)
    &&& forall|k: int| 0 <= k < a.len() && k != s && k != d ==> #[trigger] b[k] == a[k]
}

/// `b` is `a` with the applications of every pair installed, in order.
pub open spec fn installed_all(a: Seq<Node>, b: Seq<Node>, pairs: Seq<(u32, u32)>, kind: AppKind) -> bool {
    exists|states: Seq<Seq<Node>>| #[trigger] install_trace(states, a, b, pairs, kind)
}

/// `states` are the networks' nodes before and after each installation.
pub open spec fn install_trace(states: Seq<Seq<Node>>, a: Seq<Node>, b: Seq<Node>, pairs: Seq<(u32, u32)>, kind: AppKind) -> bool {
    &&& states.len() == pairs.len() + 1
    &&& states[0] == a
    &&& states[pairs.len() as int] == b
    &&& forall|k: int| 0 <= k < pairs.len() ==> #[trigger] step_ok(states, pairs, kind, k)
}

/// Step `k` installed the applications of pair `k`.
pub open spec fn step_ok(states: Seq<Seq<Node>>, pairs: Seq<(u32, u32)>, kind: AppKind, k: int) -> bool {
    exists|tp: u16, pp: u16| #[trigger] installed_pair(states[k], states[k + 1], pairs[k].0, pairs[k].1, kind, tp, pp)
}

/// Install the applications of one pair of distinct stations. Fails,
/// changing nothing, if a station is not a node or has no free port.
pub fn install_pair(network: &mut Network, this_node_id: u32, peer_node_id: u32, kind: AppKind) -> (r: Result<(u16, u16), SimError>)
    requires
        old(network).wf(),
        this_node_id != peer_node_id,
    ensures
        final(network).wf(),
        final(network).links_spec() == old(network).links_spec(),
        final(network).nodes_spec().len() == old(network).nodes_spec().len(),
        r is Ok <==> this_node_id < old(network).nodes_spec().len() && peer_node_id < old(network).nodes_spec().len()
            && has_free(old(network).nodes_spec()[this_node_id as int].ports_spec())
            && has_free(old(network).nodes_spec()[peer_node_id as int].ports_spec()),
        r is Err ==> final(network).nodes_spec() =~= old(network).nodes_spec() && r == Err::<(u16, u16), SimError>(SimError::ConfigInvalid),
        r matches Ok((tp, pp)) ==> installed_pair(old(network).nodes_spec(), final(network).nodes_spec(), this_node_id, peer_node_id, kind, tp, pp),
{
    let this_port = match network.node(this_node_id) {
        Some(node) => node.next_port(),
        None => {
            return Err(SimError::ConfigInvalid);
        },
    };
    let peer_port = match network.node(peer_node_id) {
        Some(node) => node.next_port(),
        None => {
            return Err(SimError::ConfigInvalid);
        },
    };
    match (this_port, peer_port) {
        (Some(tp), Some(pp)) => {
            let ghost n0 = network.nodes_spec();
            let (first, second) = match kind {
                AppKind::PingPong { max_requests } => (
                    Application::Pinger(Pinger::new(this_node_id, tp, peer_node_id, pp, max_requests)),
                    Application::Ponger(Ponger::new(peer_node_id, pp)),
                ),
                AppKind::ClientServer { first_delay_ns } => (
                    Application::Client(Client::new(this_node_id, tp, peer_node_id, pp, first_delay_ns)),
                    Application::Server(Server::new(peer_node_id, pp)),
                ),
            };
            let ghost f = first;
            let ghost g = second;
            let ok1 = network.add_application(this_node_id, first, tp);
            let ghost n1 = network.nodes_spec();
            let ok2 = network.add_application(peer_node_id, second, pp);
            proof {
                assert(ok1 && ok2);
                assert(n0[this_node_id as int].apps_spec().push(crate::node::AppSlot { port: tp, app: f }).drop_last()
                    =~= n0[this_node_id as int].apps_spec());
                assert(n0[peer_node_id as int].apps_spec().push(crate::node::AppSlot { port: pp, app: g }).drop_last()
                    =~= n0[peer_node_id as int].apps_spec());
                assert(n1[peer_node_id as int] == n0[peer_node_id as int]);
                assert(installed_pair(n0, network.nodes_spec(), this_node_id, peer_node_id, kind, tp, pp));
            }
            Ok((tp, pp))
        },
        _ => {
            proof {
                if this_port is None {
                    assert(!has_free(network.nodes_spec()[this_node_id as int].ports_spec()));
                } else {
                    assert(!has_free(network.nodes_spec()[peer_node_id as int].ports_spec()));
                }
            }
            Err(SimError::ConfigInvalid)
        },
    }
}

/// Fewer than 65536 distinct ports leave one free.
pub proof fn lemma_free_port(ports: Seq<u16>)
    requires
        ports.no_duplicates(),
        ports.len() < 65536,
    ensures
        has_free(ports),
{
    if !has_free(ports) {
        let ints = ports.map_values(|p: u16| p as int);
        assert(ints.no_duplicates()) by {
            assert forall|i: int, j: int| 0 <= i < ints.len() && 0 <= j < ints.len() && i != j implies ints[i] != ints[j] by {
                assert(ports[i] != ports[j]);
            }
        }
        ints.unique_seq_to_set();
        vstd::set_lib::lemma_int_range(0, 65536);
        assert forall|x: int| #[trigger] vstd::set_lib::set_int_range(0, 65536).contains(x) implies ints.to_set().contains(x) by {
            let q = x as u16;
            assert(ports.contains(q));
            let k = choose|k: int| 0 <= k < ports.len() && ports[k] == q;
            assert(ints[k] == x);
        }
        vstd::set_lib::lemma_len_subset(vstd::set_lib::set_int_range(0, 65536), ints.to_set());
        assert(false);
    }
}

/// Install the applications of each pair, in order. Succeeds when every
/// station of the pairs is a node and no node has 65536 ports left in use
/// after adding two for each pair; fails otherwise only if a station is
/// not a node or runs out of ports.
pub fn install_all(network: &mut Network, pairs: &Vec<(u32, u32)>, kind: AppKind) -> (r: Result<usize, SimError>)
    requires
        old(network).wf(),
        forall|k: int| 0 <= k < pairs@.len() ==> (#[trigger] pairs@[k]).0 != pairs@[k].1,
    ensures
        final(network).wf(),
        final(network).links_spec() == old(network).links_spec(),
        r is Err ==> r == Err::<usize, SimError>(SimError::ConfigInvalid),
        r matches Ok(n) ==> n == pairs@.len() && installed_all(old(network).nodes_spec(), final(network).nodes_spec(), pairs@, kind),
        room_for(old(network).nodes_spec(), pairs@) ==> r is Ok,
{
    let ghost a = network.nodes_spec();
    let ghost mut states: Seq<Seq<Node>> = seq![a];
    let mut k: usize = 0;
    while k < pairs.len()
        invariant
            network.wf(),
            network.links_spec() == old(network).links_spec(),
            network.nodes_spec().len() == a.len(),
            a == old(network).nodes_spec(),
            k <= pairs@.len(),
            forall|q: int| 0 <= q < pairs@.len() ==> (#[trigger] pairs@[q]).0 != pairs@[q].1,
            states.len() == k + 1,
            states[0] == a,
            states[k as int] == network.nodes_spec(),
            forall|q: int| 0 <= q < k ==> #[trigger] step_ok(states, pairs@, kind, q),
            forall|u: int| 0 <= u < a.len() ==> #[trigger] network.nodes_spec()[u].ports_spec().len() <= a[u].ports_spec().len() + 2 * k,
        decreases pairs@.len() - k,
    {
        let (s, d) = pairs[k];
        let ghost before = network.nodes_spec();
        proof {
            if room_for(a, pairs@) {
                assert(s < a.len() && d < a.len());
                lemma_node_wf(network, s as int);
                lemma_node_wf(network, d as int);
                crate::node::lemma_ports_distinct(network.nodes_spec()[s as int]);
                crate::node::lemma_ports_distinct(network.nodes_spec()[d as int]);
                assert(a[s as int].ports_spec().len() + 2 * pairs@.len() < 65536);
                lemma_free_port(network.nodes_spec()[s as int].ports_spec());
                lemma_free_port(network.nodes_spec()[d as int].ports_spec());
            }
        }
        match install_pair(network, s, d, kind) {
            Ok((tp, pp)) => {
                proof {
                    let after = network.nodes_spec();
                    let st2 = states.push(after);
                    assert forall|q: int| 0 <= q < k + 1 implies #[trigger] step_ok(st2, pairs@, kind, q) by {
                        if q < k {
                            assert(st2[q] == states[q] && st2[q + 1] == states[q + 1]);
                            assert(step_ok(states, pairs@, kind, q));
                            let (tp2, pp2) = choose|tp2: u16, pp2: u16| #[trigger] installed_pair(states[q], states[q + 1], pairs@[q].0, pairs@[q].1, kind, tp2, pp2);
                            assert(installed_pair(st2[q], st2[q + 1], pairs@[q].0, pairs@[q].1, kind, tp2, pp2));
                        } else {
                            assert(installed_pair(st2[q], st2[q + 1], pairs@[q].0, pairs@[q].1, kind, tp, pp));
                        }
                    }
                    assert forall|u: int| 0 <= u < a.len() implies #[trigger] after[u].ports_spec().len() <= a[u].ports_spec().len() + 2 * (k + 1) by {
                        if u != s && u != d {
                            assert(after[u] == before[u]);
                        }
                    }
                    states = st2;
                }
            },
            Err(e) => {
                return Err(e);
            },
        }
        k = k + 1;
    }
    proof {
        assert(install_trace(states, a, network.nodes_spec(), pairs@, kind));
    }
    Ok(k)
}

/// Every station of the pairs is a node, and each node keeps fewer than
/// 65536 ports in use after two more for each pair.
pub open spec fn room_for(nodes: Seq<Node>, pairs: Seq<(u32, u32)>) -> bool {
    &&& forall|k: int| 0 <= k < pairs.len() ==> (#[trigger] pairs[k]).0 < nodes.len() && pairs[k].1 < nodes.len()
    &&& forall|u: int| 0 <= u < nodes.len() ==> (#[trigger] nodes[u]).ports_spec().len() + 2 * pairs.len() < 65536
}

/// The pinger is at `this:tp`, towards `peer:pp`, with `max_requests`, and
/// has issued nothing yet.
pub open spec fn pinger_is(p: Pinger, this: u32, tp: u16, peer: u32, pp: u16, max_requests: u64) -> bool {
    &&& p.this_node_id_spec() == this
    &&& p.this_port_spec() == tp
    &&& p.peer_node_id_spec() == peer
    &&& p.peer_port_spec() == pp
    &&& p.max_requests_spec() == max_requests
    &&& p.issued() == 0
}

/// Install a pinger and a ponger for every pair of stations: the pinger at
/// the first station, on its lowest free port, towards the ponger at the
/// second, on its lowest free port. Fails if a node is missing or has no
/// free port.
pub fn create_applications(seed: u64, conf: &ConfPing, ogs_indices: &Vec<u32>, network: &mut Network) -> (r: Result<
    usize,
    SimError,
>)
    requires
        old(network).wf(),
        ogs_indices@.len() >= 2,
        forall|a: int, b: int| 0 <= a < b < ogs_indices@.len() ==> ogs_indices@[a] != ogs_indices@[b],
    ensures
        final(network).wf(),
        final(network).links_spec() == old(network).links_spec(),
        r is Err ==> r == Err::<usize, SimError>(SimError::ConfigInvalid),
        exists|pairs: Seq<(u32, u32)>| #[trigger] setup_done(
            old(network).nodes_spec(),
            final(network).nodes_spec(),
            conf.source_dest_pairs,
            ogs_indices@,
            pairs,
            AppKind::PingPong { max_requests: conf.max_requests },
            r,
        ),
{
    let pairs = source_destination_pairs(conf.source_dest_pairs, ogs_indices, seed);
    let ghost a = network.nodes_spec();
    let r = install_all(network, &pairs, AppKind::PingPong { max_requests: conf.max_requests });
    assert(setup_done(a, network.nodes_spec(), conf.source_dest_pairs, ogs_indices@, pairs@, AppKind::PingPong { max_requests: conf.max_requests }, r));
    r
}

/// The applications were set up for `pairs`, drawn as `conf` asks: on
/// success one of each kind per pair, in order, on the lowest free ports;
/// success is certain when every station is a node with room for the
/// ports.
pub open spec fn setup_done(
    a: Seq<Node>,
    b: Seq<Node>,
    conf: SourceDestPairs,
    ogs: Seq<u32>,
    pairs: Seq<(u32, u32)>,
    kind: AppKind,
    r: Result<usize, SimError>,
) -> bool {
    &&& drawn_pairs(conf, ogs, pairs)
    &&& r matches Ok(n) ==> n == pairs.len() && n == num_pairs(conf, ogs.len()) && installed_all(a, b, pairs, kind)
    &&& room_for(a, pairs) ==> r is Ok
}

/// Number of pairs of stations that get applications.
pub open spec fn num_pairs(conf: SourceDestPairs, num_ogs: nat) -> int {
    match conf {
        SourceDestPairs::Random(n) => n as int,
        SourceDestPairs::AllToAll => num_ogs * (num_ogs - 1),
    }
}

/// Install a client and a server for every pair of stations: the client at
/// the first station, on its lowest free port, whose first request comes
/// after `first_delay_ns`, towards the server at the second, on its lowest
/// free port. Fails if a node is missing or has no free port. Returns how
/// many pairs were installed.
pub fn create_client_server(
    seed: u64,
    source_dest_pairs: SourceDestPairs,
    ogs_indices: &Vec<u32>,
    network: &mut Network,
    first_delay_ns: u64,
) -> (r: Result<usize, SimError>)
    requires
        old(network).wf(),
        ogs_indices@.len() >= 2,
        forall|a: int, b: int| 0 <= a < b < ogs_indices@.len() ==> ogs_indices@[a] != ogs_indices@[b],
    ensures
        final(network).wf(),
        final(network).links_spec() == old(network).links_spec(),
        r is Err ==> r == Err::<usize, SimError>(SimError::ConfigInvalid),
        exists|pairs: Seq<(u32, u32)>| #[trigger] setup_done(
            old(network).nodes_spec(),
            final(network).nodes_spec(),
            source_dest_pairs,
            ogs_indices@,
            pairs,
            AppKind::ClientServer { first_delay_ns },
            r,
        ),
{
    let pairs = source_destination_pairs(source_dest_pairs, ogs_indices, seed);
    let ghost a = network.nodes_spec();
    let r = install_all(network, &pairs, AppKind::ClientServer { first_delay_ns });
    assert(setup_done(a, network.nodes_spec(), source_dest_pairs, ogs_indices@, pairs@, AppKind::ClientServer { first_delay_ns }, r));
    r
}

} // verus!
