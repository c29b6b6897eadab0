//! Logical topology: which pairs of nodes share EPR pairs, made by which
//! transmitter, with how many memory qubits and at what rate.

use crate::error::SimError;
use crate::outside::{hop_distances, hop_row, shuffle_items};
use crate::reach::{lemma_reach_first_edge, lemma_reach_mono, lemma_reach_prepend, reach_within, reaches};
use crate::physical_topology::{has_edge_spec, NodeType, NodeWeight, PhysicalTopology};
use vstd::prelude::*;

verus! {

broadcast use vstd::seq_lib::group_to_multiset_ensures;

/// How a logical topology is derived from a physical one.
#[derive(Debug, PartialEq, Eq, Clone, Copy, Structural)]
pub enum PhysicalToLogicalPolicy {
    RandomGreedy,
}

/// A candidate logical link: `tx` sends one photon of each pair to `master`
/// and the other to `slave`.
#[derive(Debug, PartialEq, Eq, Clone, Copy, Default, Structural)]
pub struct LogicalEdge {
    pub tx: u32,
    pub master: u32,
    pub slave: u32,
}

impl LogicalEdge {
    /// The same link with the roles of its ends exchanged.
    pub fn swap_master_slave(&self) -> (r: Self)
        ensures
            r == (LogicalEdge { tx: self.tx, master: self.slave, slave: self.master }),
    {
        LogicalEdge { tx: self.tx, master: self.slave, slave: self.master }
    }
}

/// `v` can receive photons sent by `tx`: it has a detector and is `tx`
/// itself or linked to it.
pub open spec fn is_rx(nodes: Seq<NodeWeight>, edges: Seq<(u32, u32)>, tx: u32, v: u32) -> bool {
    &&& v < nodes.len()
    &&& nodes[v as int].detectors > 0
    &&& (v == tx || has_edge_spec(edges, tx, v))
}

/// `e` is a possible logical link of the physical topology.
pub open spec fn possible_edge(nodes: Seq<NodeWeight>, edges: Seq<(u32, u32)>, e: LogicalEdge) -> bool {
    &&& e.tx < nodes.len()
    &&& nodes[e.tx as int].transmitters > 0
    &&& e.master != e.slave
    &&& is_rx(nodes, edges, e.tx, e.master)
    &&& is_rx(nodes, edges, e.tx, e.slave)
}

proof fn lemma_push_keeps<T>(s: Seq<T>, x: T, y: T)
    requires
        s.contains(x),
    ensures
        s.push(y).contains(x),
{
    let k = choose|k: int| 0 <= k < s.len() && s[k] == x;
    assert(s.push(y)[k] == x);
}

/// Link `e` is one of the first pairs of receivers `rx` sent for `u`: both
/// orientations of `(rx[p], rx[q])` with `q < p`, `(p, q)` before `(i, j)`.
pub open spec fn sent_pair(u: u32, rx: Seq<u32>, e: LogicalEdge, i: int, j: int) -> bool {
    exists|p: int, q: int|
        0 <= q < p < rx.len() && (p < i || (p == i && q < j)) && (e == LogicalEdge { tx: u, master: rx[p], slave: rx[q] }
            || e == LogicalEdge { tx: u, master: rx[q], slave: rx[p] })
}

/// True if `v` holds `x`.
fn contains_u32(v: &Vec<u32>, x: u32) -> (r: bool)
    ensures
        r == v@.contains(x),
{
    let mut i: usize = 0;
    while i < v.len()
        invariant
            i <= v@.len(),
            forall|k: int| 0 <= k < i ==> v@[k] != x,
        decreases v@.len() - i,
    {
        if v[i] == x {
            assert(v@[i as int] == x);
            return true;
        }
        i = i + 1;
    }
    false
}

/// Every possible logical link of the physical topology: for each node with
/// a transmitter, both orientations of each pair of distinct receivers.
pub fn find_possible_logical_edges(physical_topology: &PhysicalTopology) -> (r: Vec<LogicalEdge>)
    requires
        physical_topology.wf(),
    ensures
        forall|k: int|
            0 <= k < r@.len() ==> possible_edge(
                physical_topology.nodes_spec(),
                physical_topology.edges_spec(),
                #[trigger] r@[k],
            ),
        forall|e: LogicalEdge|
            possible_edge(physical_topology.nodes_spec(), physical_topology.edges_spec(), e)
                ==> #[trigger] r@.contains(e),
        r@.no_duplicates(),
{
    let ghost nodes = physical_topology.nodes_spec();
    let ghost edges = physical_topology.edges_spec();
    let n = physical_topology.node_count();
    let mut ret: Vec<LogicalEdge> = Vec::new();
    let mut u: usize = 0;
    while u < n
        invariant
            n == nodes.len() <= u32::MAX,
            u <= n,
            nodes == physical_topology.nodes_spec(),
            edges == physical_topology.edges_spec(),
            physical_topology.wf(),
            forall|k: int| 0 <= k < ret@.len() ==> possible_edge(nodes, edges, #[trigger] ret@[k]),
            forall|e: LogicalEdge|
                e.tx < u && possible_edge(nodes, edges, e) ==> #[trigger] ret@.contains(e),
            ret@.no_duplicates(),
            forall|k: int| 0 <= k < ret@.len() ==> (#[trigger] ret@[k]).tx < u,
        decreases n - u,
    {
        let w = physical_topology.nodes()[u];
        if w.transmitters > 0 {
            let neighbors = physical_topology.neighbors(u as u32);
            let mut rx: Vec<u32> = Vec::new();
            let mut k: usize = 0;
            while k < neighbors.len()
                invariant
                    n == nodes.len() <= u32::MAX,
                    u < n,
                    nodes == physical_topology.nodes_spec(),
                    edges == physical_topology.edges_spec(),
                    physical_topology.wf(),
                    k <= neighbors@.len(),
                    forall|v: u32| neighbors@.contains(v) <==> has_edge_spec(edges, u as u32, v),
                    forall|q: int| 0 <= q < rx@.len() ==> is_rx(nodes, edges, u as u32, #[trigger] rx@[q]),
                    forall|q: int|
                        0 <= q < k && is_rx(nodes, edges, u as u32, #[trigger] neighbors@[q])
                            ==> rx@.contains(neighbors@[q]),
                    rx@.no_duplicates(),
                    forall|q: int| 0 <= q < rx@.len() ==> #[trigger] rx@[q] != u as u32,
                decreases neighbors@.len() - k,
            {
                let v = neighbors[k];
                assert(neighbors@.contains(v));
                proof {
                    let x = physical_topology.edges_spec();
                    let ei = choose|ei: int|
                        0 <= ei < x.len() && (#[trigger] x[ei] == (u as u32, v) || x[ei] == (
                        v,
                        u as u32,
                    ));
                    assert(x[ei].0 < nodes.len() && x[ei].1 < nodes.len());
                    assert(v != u as u32);
                }
                let ghost rx0 = rx@;
                if physical_topology.nodes()[v as usize].detectors > 0 && !contains_u32(&rx, v) {
                    rx.push(v);
                    proof {
                        assert forall|a: int, b: int| 0 <= a < b < rx@.len() implies rx@[a] != rx@[b] by {
                            if b == rx@.len() - 1 {
                                assert(rx0[a] == rx@[a]);
                            }
                        }
                    }
                }
                proof {
                    assert forall|q: int|
                        0 <= q < k + 1 && is_rx(nodes, edges, u as u32, #[trigger] neighbors@[q])
                            implies rx@.contains(neighbors@[q]) by {
                        if q == k {
                            if rx@.len() > rx0.len() {
                                assert(rx@[rx@.len() - 1] == v);
                            }
                        } else {
                            lemma_push_keeps(rx0, neighbors@[q], v);
                        }
                    }
                }
                k = k + 1;
            }
            if w.detectors > 0 {
                let ghost rx0 = rx@;
                rx.push(u as u32);
                proof {
                    assert forall|a: int, b: int| 0 <= a < b < rx@.len() implies rx@[a] != rx@[b] by {
                        if b == rx@.len() - 1 {
                            assert(rx0[a] == rx@[a]);
                        }
                    }
                    assert forall|q: int|
                        0 <= q < neighbors@.len() && is_rx(nodes, edges, u as u32, #[trigger] neighbors@[q])
                            implies rx@.contains(neighbors@[q]) by {
                        lemma_push_keeps(rx0, neighbors@[q], u as u32);
                    }
                    assert(rx@[rx@.len() - 1] == u as u32);
                }
            }
            proof {
                assert forall|v: u32| is_rx(nodes, edges, u as u32, v) implies rx@.contains(v) by {
                    if v != u as u32 {
                        assert(neighbors@.contains(v));
                        let q = choose|q: int| 0 <= q < neighbors@.len() && neighbors@[q] == v;
                        assert(is_rx(nodes, edges, u as u32, neighbors@[q]));
                    } else {
                        assert(rx@[rx@.len() - 1] == u as u32);
                    }
                }
            }
            let m = rx.len();
            let mut i: usize = 0;
            while i < m
                invariant
                    n == nodes.len() <= u32::MAX,
                    u < n,
                    nodes == physical_topology.nodes_spec(),
                    edges == physical_topology.edges_spec(),
                    nodes[u as int].transmitters > 0,
                    m == rx@.len(),
                    i <= m,
                    forall|q: int| 0 <= q < rx@.len() ==> is_rx(nodes, edges, u as u32, #[trigger] rx@[q]),
                    forall|k: int| 0 <= k < ret@.len() ==> possible_edge(nodes, edges, #[trigger] ret@[k]),
                    forall|e: LogicalEdge|
                        e.tx < u && possible_edge(nodes, edges, e) ==> #[trigger] ret@.contains(e),
                    forall|p: int, q: int|
                        0 <= q < p < i && rx@[p] != rx@[q] ==> ret@.contains(
                            LogicalEdge { tx: u as u32, master: #[trigger] rx@[p], slave: #[trigger] rx@[q] },
                        ) && ret@.contains(LogicalEdge { tx: u as u32, master: rx@[q], slave: rx@[p] }),
                    rx@.no_duplicates(),
                    ret@.no_duplicates(),
                    forall|k: int| 0 <= k < ret@.len() ==> (#[trigger] ret@[k]).tx < u || sent_pair(u as u32, rx@, ret@[k], i as int, 0),
                decreases m - i,
            {
                let mut j: usize = 0;
                while j < i
                    invariant
                        n == nodes.len() <= u32::MAX,
                        u < n,
                        nodes == physical_topology.nodes_spec(),
                        edges == physical_topology.edges_spec(),
                        nodes[u as int].transmitters > 0,
                        m == rx@.len(),
                        i < m,
                        j <= i,
                        forall|q: int| 0 <= q < rx@.len() ==> is_rx(nodes, edges, u as u32, #[trigger] rx@[q]),
                        forall|k: int| 0 <= k < ret@.len() ==> possible_edge(nodes, edges, #[trigger] ret@[k]),
                        forall|e: LogicalEdge|
                            e.tx < u && possible_edge(nodes, edges, e) ==> #[trigger] ret@.contains(e),
                        forall|p: int, q: int|
                            0 <= q < p && (p < i || (p == i && q < j)) && rx@[p] != rx@[q] ==> ret@.contains(
                                LogicalEdge { tx: u as u32, master: #[trigger] rx@[p], slave: #[trigger] rx@[q] },
                            ) && ret@.contains(LogicalEdge { tx: u as u32, master: rx@[q], slave: rx@[p] }),
                        rx@.no_duplicates(),
                        ret@.no_duplicates(),
                        forall|k: int| 0 <= k < ret@.len() ==> (#[trigger] ret@[k]).tx < u || sent_pair(u as u32, rx@, ret@[k], i as int, j as int),
                    decreases i - j,
                {
                    if rx[i] != rx[j] {
                        let e = LogicalEdge { tx: u as u32, master: rx[i], slave: rx[j] };
                        let ghost ret0 = ret@;
                        ret.push(e);
                        let e2 = e.swap_master_slave();
                        ret.push(e2);
                        proof {
                            assert(ret@[ret@.len() - 1] == e2);
                            assert(ret@[ret@.len() - 2] == e);
                            assert forall|x: LogicalEdge| #[trigger] ret0.contains(x) implies ret@.contains(x) by {
                                lemma_push_keeps(ret0, x, e);
                                lemma_push_keeps(ret0.push(e), x, e2);
                            }
                            assert forall|x: LogicalEdge|
                                x.tx < u && possible_edge(nodes, edges, x) implies #[trigger] ret@.contains(x) by {
                                assert(ret0.contains(x));
                            }
                            assert forall|k: int| 0 <= k < ret0.len() implies ret0[k] != e && ret0[k] != e2 by {
                                if ret0[k].tx == u as u32 {
                                    assert(sent_pair(u as u32, rx@, ret0[k], i as int, j as int));
                                    let (p, q) = choose|p: int, q: int| 0 <= q < p < rx@.len() && (p < i || (p == i && q < j)) && (ret0[k]
                                        == LogicalEdge { tx: u as u32, master: rx@[p], slave: rx@[q] } || ret0[k]
                                        == LogicalEdge { tx: u as u32, master: rx@[q], slave: rx@[p] });
                                    if ret0[k] == e {
                                        if ret0[k] == (LogicalEdge { tx: u as u32, master: rx@[p], slave: rx@[q] }) {
                                            assert(rx@[p] == rx@[i as int]);
                                            assert(p == i);
                                            assert(rx@[q] == rx@[j as int]);
                                        } else {
                                            assert(rx@[q] == rx@[i as int]);
                                        }
                                    }
                                    if ret0[k] == e2 {
                                        if ret0[k] == (LogicalEdge { tx: u as u32, master: rx@[p], slave: rx@[q] }) {
                                            assert(rx@[p] == rx@[j as int]);
                                        } else {
                                            assert(rx@[q] == rx@[j as int]);
                                            assert(rx@[p] == rx@[i as int]);
                                        }
                                    }
                                }
                            }
                            assert forall|a: int, b: int| 0 <= a < b < ret@.len() implies ret@[a] != ret@[b] by {
                                if b >= ret0.len() && a < ret0.len() {
                                    assert(ret@[a] == ret0[a]);
                                }
                            }
                            assert forall|k: int| 0 <= k < ret@.len() implies (#[trigger] ret@[k]).tx < u || sent_pair(u as u32, rx@, ret@[k], i as int, j + 1) by {
                                if k < ret0.len() {
                                    assert(ret@[k] == ret0[k]);
                                    if ret0[k].tx == u as u32 {
                                        assert(sent_pair(u as u32, rx@, ret0[k], i as int, j as int));
                                    }
                                } else if k == ret0.len() {
                                    assert(sent_pair(u as u32, rx@, e, i as int, j + 1)) by {
                                        assert(e == LogicalEdge { tx: u as u32, master: rx@[i as int], slave: rx@[j as int] });
                                    }
                                } else {
                                    assert(sent_pair(u as u32, rx@, e2, i as int, j + 1)) by {
                                        assert(e2 == LogicalEdge { tx: u as u32, master: rx@[j as int], slave: rx@[i as int] });
                                    }
                                }
                            }
                        }
                    } else {
                        proof {
                            assert forall|k: int| 0 <= k < ret@.len() implies (#[trigger] ret@[k]).tx < u || sent_pair(u as u32, rx@, ret@[k], i as int, j + 1) by {
                                if ret@[k].tx == u as u32 {
                                    assert(sent_pair(u as u32, rx@, ret@[k], i as int, j as int));
                                }
                            }
                        }
                    }
                    j = j + 1;
                }
                proof {
                    assert forall|k: int| 0 <= k < ret@.len() implies (#[trigger] ret@[k]).tx < u || sent_pair(u as u32, rx@, ret@[k], i + 1, 0) by {
                        if ret@[k].tx == u as u32 {
                            assert(sent_pair(u as u32, rx@, ret@[k], i as int, i as int));
                        }
                    }
                }
                i = i + 1;
            }
            proof {
                assert forall|e: LogicalEdge|
                    e.tx < u + 1 && possible_edge(nodes, edges, e) implies #[trigger] ret@.contains(e) by {
                    if e.tx == u as u32 {
                        assert(rx@.contains(e.master));
                        assert(rx@.contains(e.slave));
                        let p = choose|p: int| 0 <= p < rx@.len() && rx@[p] == e.master;
                        let q = choose|q: int| 0 <= q < rx@.len() && rx@[q] == e.slave;
                        if q < p {
                            assert(ret@.contains(LogicalEdge { tx: u as u32, master: rx@[p], slave: rx@[q] }));
                        } else {
                            assert(ret@.contains(LogicalEdge { tx: u as u32, master: rx@[q], slave: rx@[p] }));
                        }
                    }
                }
            }
        }
        u = u + 1;
    }
    ret
}


/// Weight of a logical link.
#[derive(Debug, PartialEq, Eq, Clone, Copy, Structural)]
pub struct EdgeWeight {
    /// Node that generates the EPR pairs.
    pub tx: u32,
    /// Memory qubits reserved for this link at each end.
    pub memory_qubits: u32,
    /// Rate at which `tx` generates pairs for this link, in thousandths of a
    /// pair per second.
    pub capacity_mpps: u64,
}

/// A directed logical link from `master` to `slave`.
#[derive(Debug, PartialEq, Eq, Clone, Copy, Structural)]
pub struct LogicalLink {
    pub master: u32,
    pub slave: u32,
    pub weight: EdgeWeight,
}

/// The `(master, slave)` pairs of the links.
pub open spec fn link_pairs(ls: Seq<LogicalLink>) -> Seq<(u32, u32)> {
    ls.map_values(|l: LogicalLink| (l.master, l.slave))
}

/// Every node of `group` reaches every other one over `edges`.
pub open spec fn all_reach(edges: Seq<(u32, u32)>, group: Seq<u32>) -> bool {
    forall|a: int, b: int|
        0 <= a < group.len() && 0 <= b < group.len() && group[a] != group[b] ==> reaches(
            edges,
            #[trigger] group[a],
            #[trigger] group[b],
        )
}

/// Sum of `f` over the links.
pub open spec fn sum_links(ls: Seq<LogicalLink>, f: spec_fn(LogicalLink) -> int) -> int
    decreases ls.len(),
{
    if ls.len() == 0 {
        0
    } else {
        sum_links(ls.drop_last(), f) + f(ls.last())
    }
}

/// Memory qubits that a link takes at node `x`.
pub open spec fn mem_at(x: u32) -> spec_fn(LogicalLink) -> int {
    |l: LogicalLink|
        if l.master == x || l.slave == x {
            l.weight.memory_qubits as int
        } else {
            0
        }
}

/// Detectors that a link takes at node `x`.
pub open spec fn det_at(x: u32) -> spec_fn(LogicalLink) -> int {
    |l: LogicalLink|
        if l.master == x || l.slave == x {
            1
        } else {
            0
        }
}

/// Transmitters that a link takes at node `x`.
pub open spec fn tx_at(x: u32) -> spec_fn(LogicalLink) -> int {
    |l: LogicalLink|
        if l.weight.tx == x {
            1
        } else {
            0
        }
}

/// Rate that a link takes from the transmitters of node `x`.
pub open spec fn cap_at(x: u32) -> spec_fn(LogicalLink) -> int {
    |l: LogicalLink|
        if l.weight.tx == x {
            l.weight.capacity_mpps as int
        } else {
            0
        }
}

/// No node gives its links more memory qubits, detectors, transmitters or
/// transmitter rate than it has.
pub open spec fn within_resources(nodes: Seq<NodeWeight>, ls: Seq<LogicalLink>) -> bool {
    forall|x: u32|
        x < nodes.len() ==> {
            &&& #[trigger] sum_links(ls, mem_at(x)) <= nodes[x as int].memory_qubits
            &&& sum_links(ls, det_at(x)) <= nodes[x as int].detectors
            &&& sum_links(ls, tx_at(x)) <= nodes[x as int].transmitters
            &&& sum_links(ls, cap_at(x)) <= nodes[x as int].capacity_mpps
        }
}

/// Links join distinct existing nodes, each ordered pair at most once, and
/// each reserves at least one memory qubit.
pub open spec fn links_well_formed(n: int, ls: Seq<LogicalLink>) -> bool {
    &&& forall|i: int|
        0 <= i < ls.len() ==> {
            &&& (#[trigger] ls[i]).master < n
            &&& ls[i].slave < n
            &&& ls[i].weight.tx < n
            &&& ls[i].master != ls[i].slave
            &&& ls[i].weight.memory_qubits >= 1
        }
    &&& forall|i: int, j: int|
        0 <= i < ls.len() && 0 <= j < ls.len() && i != j ==> ((#[trigger] ls[i]).master, ls[i].slave)
            != ((#[trigger] ls[j]).master, ls[j].slave)
}

proof fn lemma_sum_push(ls: Seq<LogicalLink>, l: LogicalLink, f: spec_fn(LogicalLink) -> int)
    ensures
        sum_links(ls.push(l), f) == sum_links(ls, f) + f(l),
{
    assert(ls.push(l).drop_last() =~= ls);
}

proof fn lemma_sum_update(ls: Seq<LogicalLink>, i: int, l: LogicalLink, f: spec_fn(LogicalLink) -> int)
    requires
        0 <= i < ls.len(),
    ensures
        sum_links(ls.update(i, l), f) == sum_links(ls, f) - f(ls[i]) + f(l),
    decreases ls.len(),
{
    if i == ls.len() - 1 {
        assert(ls.update(i, l).drop_last() =~= ls.drop_last());
    } else {
        lemma_sum_update(ls.drop_last(), i, l, f);
        assert(ls.update(i, l).drop_last() =~= ls.drop_last().update(i, l));
    }
}

proof fn lemma_sum_nonneg(ls: Seq<LogicalLink>, f: spec_fn(LogicalLink) -> int, i: int)
    requires
        0 <= i < ls.len(),
        forall|l: LogicalLink| #[trigger] f(l) >= 0,
    ensures
        f(ls[i]) <= sum_links(ls, f),
    decreases ls.len(),
{
    lemma_sum_ge_zero(ls.drop_last(), f);
    if i < ls.len() - 1 {
        lemma_sum_nonneg(ls.drop_last(), f, i);
    }
}

proof fn lemma_sum_ge_zero(ls: Seq<LogicalLink>, f: spec_fn(LogicalLink) -> int)
    requires
        forall|l: LogicalLink| #[trigger] f(l) >= 0,
    ensures
        sum_links(ls, f) >= 0,
    decreases ls.len(),
{
    if ls.len() > 0 {
        lemma_sum_ge_zero(ls.drop_last(), f);
    }
}

proof fn lemma_sum_cap(ls: Seq<LogicalLink>, x: u32, c: int)
    requires
        forall|i: int| 0 <= i < ls.len() && (#[trigger] ls[i]).weight.tx == x ==> ls[i].weight.capacity_mpps == c,
    ensures
        sum_links(ls, cap_at(x)) == c * sum_links(ls, tx_at(x)),
    decreases ls.len(),
{
    if ls.len() > 0 {
        let d = ls.drop_last();
        assert forall|i: int| 0 <= i < d.len() && (#[trigger] d[i]).weight.tx == x implies d[i].weight.capacity_mpps == c by {
            assert(d[i] == ls[i]);
        }
        lemma_sum_cap(d, x, c);
        let a = sum_links(d, tx_at(x));
        let t = tx_at(x)(ls.last());
        assert(ls.last() == ls[ls.len() - 1]);
        assert(cap_at(x)(ls.last()) == c * t);
        assert(c * (a + t) == c * a + c * t) by (nonlinear_arith);
    }
}

/// The `(master, slave)` pairs of the links.
pub fn link_pairs_exec(ls: &Vec<LogicalLink>) -> (r: Vec<(u32, u32)>)
    ensures
        r@ == link_pairs(ls@),
{
    let mut r: Vec<(u32, u32)> = Vec::new();
    let mut i: usize = 0;
    while i < ls.len()
        invariant
            i <= ls@.len(),
            r@ =~= link_pairs(ls@.subrange(0, i as int)),
        decreases ls@.len() - i,
    {
        r.push((ls[i].master, ls[i].slave));
        i = i + 1;
        assert(r@ =~= link_pairs(ls@.subrange(0, i as int)));
    }
    assert(ls@.subrange(0, i as int) =~= ls@);
    r
}

/// True if every node of `group` reaches every other one over the directed
/// `edges`.
pub fn reachable(num_nodes: u32, edges: &Vec<(u32, u32)>, group: &Vec<u32>) -> (r: bool)
    requires
        forall|k: int| 0 <= k < group@.len() ==> #[trigger] group@[k] < num_nodes,
    ensures
        r == all_reach(edges@, group@),
{
    let mut a: usize = 0;
    while a < group.len()
        invariant
            a <= group@.len(),
            forall|k: int| 0 <= k < group@.len() ==> #[trigger] group@[k] < num_nodes,
            forall|x: int, y: int|
                0 <= x < a && 0 <= y < group@.len() && group@[x] != group@[y] ==> reaches(
                    edges@,
                    #[trigger] group@[x],
                    #[trigger] group@[y],
                ),
        decreases group@.len() - a,
    {
        let u = group[a];
        let d = hop_distances(num_nodes, edges, u);
        let mut b: usize = 0;
        while b < group.len()
            invariant
                a < group@.len(),
                b <= group@.len(),
                u == group@[a as int],
                d@.len() == num_nodes,
                forall|k: int| 0 <= k < group@.len() ==> #[trigger] group@[k] < num_nodes,
                forall|v: u32|
                    v < num_nodes ==> match #[trigger] d@[v as int] {
                        Some(dd) => reach_within(edges@, u, v, dd as nat),
                        None => !reaches(edges@, u, v),
                    },
                forall|x: int, y: int|
                    0 <= x < a && 0 <= y < group@.len() && group@[x] != group@[y] ==> reaches(
                        edges@,
                        #[trigger] group@[x],
                        #[trigger] group@[y],
                    ),
                forall|y: int|
                    0 <= y < b && u != group@[y] ==> reaches(edges@, u, #[trigger] group@[y]),
            decreases group@.len() - b,
        {
            let v = group[b];
            if u != v {
                match d[v as usize] {
                    None => {
                        assert(!reaches(edges@, group@[a as int], group@[b as int]));
                        return false;
                    },
                    Some(dd) => {
                        assert(reach_within(edges@, u, v, dd as nat));
                    },
                }
            }
            b = b + 1;
        }
        a = a + 1;
    }
    true
}


/// Sum of the items.
pub open spec fn sum_u32(s: Seq<u32>) -> int
    decreases s.len(),
{
    if s.len() == 0 {
        0
    } else {
        sum_u32(s.drop_last()) + s.last()
    }
}

proof fn lemma_sum_u32_update(s: Seq<u32>, i: int, v: u32)
    requires
        0 <= i < s.len(),
    ensures
        sum_u32(s.update(i, v)) == sum_u32(s) - s[i] + v,
        sum_u32(s) >= 0,
    decreases s.len(),
{
    if i == s.len() - 1 {
        assert(s.update(i, v).drop_last() =~= s.drop_last());
        lemma_sum_u32_nonneg(s.drop_last());
    } else {
        lemma_sum_u32_update(s.drop_last(), i, v);
        assert(s.update(i, v).drop_last() =~= s.drop_last().update(i, v));
    }
}

proof fn lemma_sum_u32_nonneg(s: Seq<u32>)
    ensures
        sum_u32(s) >= 0,
    decreases s.len(),
{
    if s.len() > 0 {
        lemma_sum_u32_nonneg(s.drop_last());
    }
}

/// `mem[x]` is what node `x` has left of its memory qubits once the links
/// took theirs.
pub open spec fn mem_accounted(nodes: Seq<NodeWeight>, mem: Seq<u32>, ls: Seq<LogicalLink>) -> bool {
    &&& mem.len() == nodes.len()
    &&& forall|x: u32|
        x < nodes.len() ==> mem[x as int] + #[trigger] sum_links(ls, mem_at(x))
            == nodes[x as int].memory_qubits
}

/// Same links, but for memory qubits that only grew.
pub open spec fn same_but_memory(a: Seq<LogicalLink>, b: Seq<LogicalLink>) -> bool {
    &&& a.len() == b.len()
    &&& forall|i: int|
        0 <= i < a.len() ==> (#[trigger] b[i]).master == a[i].master && b[i].slave == a[i].slave
            && b[i].weight.tx == a[i].weight.tx && b[i].weight.capacity_mpps
            == a[i].weight.capacity_mpps && b[i].weight.memory_qubits >= a[i].weight.memory_qubits
}

proof fn lemma_same_but_memory_sums(a: Seq<LogicalLink>, b: Seq<LogicalLink>, x: u32)
    requires
        same_but_memory(a, b),
    ensures
        sum_links(b, det_at(x)) == sum_links(a, det_at(x)),
        sum_links(b, tx_at(x)) == sum_links(a, tx_at(x)),
        sum_links(b, cap_at(x)) == sum_links(a, cap_at(x)),
        link_pairs(b) == link_pairs(a),
    decreases a.len(),
{
    if a.len() > 0 {
        assert(same_but_memory(a.drop_last(), b.drop_last())) by {
            assert forall|i: int| 0 <= i < a.len() - 1 implies (#[trigger] b.drop_last()[i]).master
                == a.drop_last()[i].master by {
                assert(b[i] == b.drop_last()[i]);
            }
        }
        lemma_same_but_memory_sums(a.drop_last(), b.drop_last(), x);
        assert(b.last() == b[b.len() - 1]);
    }
    assert(link_pairs(b) =~= link_pairs(a));
}

/// One end of link `l` has no memory qubit left.
pub open spec fn exhausted(mem: Seq<u32>, l: LogicalLink) -> bool {
    mem[l.master as int] == 0 || mem[l.slave as int] == 0
}

/// Hand out the memory qubits left, one per link and round, to the links
/// whose two ends both have some left, visiting the links in a random
/// order, until a round hands out none.
fn distribute_memory(
    nodes: Ghost<Seq<NodeWeight>>,
    mem: &mut Vec<u32>,
    ls: &mut Vec<LogicalLink>,
    rng: &mut rand::rngs::StdRng,
)
    requires
        mem_accounted(nodes@, old(mem)@, old(ls)@),
        links_well_formed(nodes@.len() as int, old(ls)@),
    ensures
        mem_accounted(nodes@, final(mem)@, final(ls)@),
        links_well_formed(nodes@.len() as int, final(ls)@),
        same_but_memory(old(ls)@, final(ls)@),
        forall|i: int| 0 <= i < final(ls)@.len() ==> exhausted(final(mem)@, #[trigger] final(ls)@[i]),
{
    let n = mem.len();
    let mut cand: Vec<usize> = Vec::new();
    let mut i: usize = 0;
    while i < ls.len()
        invariant
            i <= ls@.len(),
            cand@.len() == i,
            forall|k: int| 0 <= k < i ==> #[trigger] cand@[k] == k,
        decreases ls@.len() - i,
    {
        cand.push(i);
        i = i + 1;
    }
    let ghost c0 = cand@;
    shuffle_items(&mut cand, rng);
    proof {
        assert forall|k: int| 0 <= k < cand@.len() implies #[trigger] cand@[k] < ls@.len() by {
            assert(cand@.contains(cand@[k]));
            assert(cand@.to_multiset().count(cand@[k]) > 0);
            assert(c0.contains(cand@[k]));
        }
        assert forall|i: usize| (i as int) < ls@.len() implies cand@.contains(i) || exhausted(mem@, #[trigger] ls@[i as int]) by {
            assert(c0[i as int] == i);
            assert(c0.contains(i));
            assert(c0.to_multiset().count(i) > 0);
            assert(cand@.to_multiset().count(i) > 0);
        }
    }
    while cand.len() > 0
        invariant
            n == nodes@.len(),
            mem_accounted(nodes@, mem@, ls@),
            links_well_formed(nodes@.len() as int, ls@),
            same_but_memory(old(ls)@, ls@),
            forall|k: int| 0 <= k < cand@.len() ==> #[trigger] cand@[k] < ls@.len(),
            forall|i: usize| (i as int) < ls@.len() ==> cand@.contains(i) || exhausted(mem@, #[trigger] ls@[i as int]),
        decreases 2 * sum_u32(mem@) + cand@.len(),
    {
        let ghost s0 = sum_u32(mem@);
        let ghost l0 = cand@.len();
        let mut next: Vec<usize> = Vec::new();
        while cand.len() > 0
            invariant
                n == nodes@.len(),
                mem_accounted(nodes@, mem@, ls@),
                links_well_formed(nodes@.len() as int, ls@),
                same_but_memory(old(ls)@, ls@),
                forall|k: int| 0 <= k < cand@.len() ==> #[trigger] cand@[k] < ls@.len(),
                forall|k: int| 0 <= k < next@.len() ==> #[trigger] next@[k] < ls@.len(),
                sum_u32(mem@) + 2 * next@.len() == s0,
                next@.len() + cand@.len() <= l0,
                forall|j: usize| (j as int) < ls@.len() ==> cand@.contains(j) || next@.contains(j) || exhausted(mem@, #[trigger] ls@[j as int]),
            decreases cand@.len(),
        {
            let ghost cd0 = cand@;
            let ghost nx0 = next@;
            let ghost mem_b = mem@;
            let ghost ls_b = ls@;
            let i = cand.pop().unwrap();
            proof {
                assert(cand@ =~= cd0.drop_last());
                assert(cd0 =~= cand@.push(i));
                assert forall|j: usize| #[trigger] cd0.contains(j) implies cand@.contains(j) || j == i by {
                    let q = choose|q: int| 0 <= q < cd0.len() && cd0[q] == j;
                    if q < cd0.len() - 1 {
                        assert(cand@[q] == j);
                    } else {
                        assert(cd0[cd0.len() - 1] == i);
                    }
                }
            }
            let l = ls[i];
            let m = l.master as usize;
            let s = l.slave as usize;
            if mem[m] > 0 && mem[s] > 0 {
                let ghost ls0 = ls@;
                let ghost mem0 = mem@;
                proof {
                    lemma_sum_nonneg(ls0, mem_at(l.master), i as int);
                }
                let l2 = LogicalLink {
                    master: l.master,
                    slave: l.slave,
                    weight: EdgeWeight {
                        tx: l.weight.tx,
                        memory_qubits: l.weight.memory_qubits + 1,
                        capacity_mpps: l.weight.capacity_mpps,
                    },
                };
                ls.set(i, l2);
                let vm = mem[m] - 1;
                mem.set(m, vm);
                let vs = mem[s] - 1;
                mem.set(s, vs);
                next.push(i);
                proof {
                    lemma_sum_u32_update(mem0, m as int, vm);
                    lemma_sum_u32_update(mem0.update(m as int, vm), s as int, vs);
                    assert forall|x: u32| x < nodes@.len() implies mem@[x as int] + #[trigger] sum_links(
                        ls@,
                        mem_at(x),
                    ) == nodes@[x as int].memory_qubits by {
                        lemma_sum_update(ls0, i as int, l2, mem_at(x));
                    }
                    assert forall|a: int, b: int|
                        0 <= a < ls@.len() && 0 <= b < ls@.len() && a != b implies ((#[trigger] ls@[a]).master,
                    ls@[a].slave) != ((#[trigger] ls@[b]).master, ls@[b].slave) by {
                        assert(ls0[a].master == ls@[a].master && ls0[a].slave == ls@[a].slave);
                        assert(ls0[b].master == ls@[b].master && ls0[b].slave == ls@[b].slave);
                    }
                    assert forall|k: int| 0 <= k < ls@.len() implies (#[trigger] ls@[k]).master
                        == old(ls)@[k].master && ls@[k].slave == old(ls)@[k].slave && ls@[k].weight.tx
                        == old(ls)@[k].weight.tx && ls@[k].weight.capacity_mpps
                        == old(ls)@[k].weight.capacity_mpps && ls@[k].weight.memory_qubits
                        >= old(ls)@[k].weight.memory_qubits by {
                        assert(ls0[k].master == old(ls)@[k].master);
                    }
                    assert forall|j: usize| (j as int) < ls@.len() implies cand@.contains(j) || next@.contains(j)
                        || exhausted(mem@, #[trigger] ls@[j as int]) by {
                        assert(ls@[j as int].master == ls_b[j as int].master && ls@[j as int].slave == ls_b[j as int].slave);
                        if j == i {
                            assert(next@[next@.len() - 1] == i);
                        } else if nx0.contains(j) {
                            let q = choose|q: int| 0 <= q < nx0.len() && nx0[q] == j;
                            assert(next@[q] == j);
                        } else if !cand@.contains(j) {
                            assert(cd0.contains(j) || exhausted(mem_b, ls_b[j as int]));
                        }
                    }
                }
            } else {
                proof {
                    assert(exhausted(mem@, ls@[i as int]));
                    assert forall|j: usize| (j as int) < ls@.len() implies cand@.contains(j) || next@.contains(j)
                        || exhausted(mem@, #[trigger] ls@[j as int]) by {
                        if cd0.contains(j) && j != i {
                            assert(cand@.contains(j));
                        }
                    }
                }
            }
        }
        proof {
            lemma_sum_u32_nonneg(mem@);
            assert forall|j: usize| (j as int) < ls@.len() implies next@.contains(j) || exhausted(mem@, #[trigger] ls@[j as int]) by {
                assert(!cand@.contains(j));
            }
        }
        cand = next;
    }
    proof {
        assert forall|i: int| 0 <= i < ls@.len() implies exhausted(mem@, #[trigger] ls@[i]) by {
            assert(ls@[(i as usize) as int] == ls@[i]);
            assert(!cand@.contains(i as usize));
        }
    }
}


/// Even share of rate `cap` among `k` links.
pub open spec fn share(cap: u64, k: int) -> u64 {
    if k <= 0 {
        cap
    } else {
        (cap as int / k) as u64
    }
}

/// Number of links whose pairs node `x` generates.
fn count_tx(ls: &Vec<LogicalLink>, x: u32) -> (r: u64)
    ensures
        r == sum_links(ls@, tx_at(x)),
{
    let mut r: u64 = 0;
    let mut i: usize = 0;
    while i < ls.len()
        invariant
            i <= ls@.len(),
            r == sum_links(ls@.subrange(0, i as int), tx_at(x)),
            r <= i,
        decreases ls@.len() - i,
    {
        assert(ls@.subrange(0, i + 1).drop_last() =~= ls@.subrange(0, i as int));
        if ls[i].weight.tx == x {
            r = r + 1;
        }
        i = i + 1;
    }
    assert(ls@.subrange(0, i as int) =~= ls@);
    r
}

/// Divide the rate of each transmitter evenly among the links it serves.
fn divide_capacity(nodes: &Vec<NodeWeight>, ls: &mut Vec<LogicalLink>)
    requires
        nodes@.len() <= u32::MAX,
        forall|i: int| 0 <= i < old(ls)@.len() ==> (#[trigger] old(ls)@[i]).weight.tx < nodes@.len(),
    ensures
        final(ls)@.len() == old(ls)@.len(),
        forall|i: int|
            0 <= i < old(ls)@.len() ==> (#[trigger] final(ls)@[i]) == (LogicalLink {
                weight: EdgeWeight {
                    capacity_mpps: share(
                        nodes@[old(ls)@[i].weight.tx as int].capacity_mpps,
                        sum_links(old(ls)@, tx_at(old(ls)@[i].weight.tx)),
                    ),
                    ..old(ls)@[i].weight
                },
                ..old(ls)@[i]
            }),
{
    let ghost ls0 = ls@;
    let n = nodes.len();
    let mut u: usize = 0;
    while u < n
        invariant
            n == nodes@.len() <= u32::MAX,
            u <= n,
            ls@.len() == ls0.len(),
            forall|i: int| 0 <= i < ls0.len() ==> (#[trigger] ls0[i]).weight.tx < nodes@.len(),
            forall|i: int|
                0 <= i < ls0.len() ==> (#[trigger] ls@[i]) == (LogicalLink {
                    weight: EdgeWeight {
                        capacity_mpps: if ls0[i].weight.tx < u {
                            share(
                                nodes@[ls0[i].weight.tx as int].capacity_mpps,
                                sum_links(ls0, tx_at(ls0[i].weight.tx)),
                            )
                        } else {
                            ls0[i].weight.capacity_mpps
                        },
                        ..ls0[i].weight
                    },
                    ..ls0[i]
                }),
        decreases n - u,
    {
        let ux = u as u32;
        let k = count_tx(ls, ux);
        proof {
            assert forall|x: u32| true implies sum_links(ls@, tx_at(x)) == sum_links(ls0, tx_at(x)) by {
                lemma_tx_sum_same(ls0, ls@, x);
            }
        }
        if k > 0 {
            let c = nodes[u].capacity_mpps / k;
            proof {
                let cap = nodes@[u as int].capacity_mpps;
                assert(0 <= cap as int / k as int <= cap) by (nonlinear_arith)
                    requires k >= 1;
                assert(c == share(cap, k as int));
            }
            let mut i: usize = 0;
            while i < ls.len()
                invariant
                    n == nodes@.len() <= u32::MAX,
                    u < n,
                    k > 0,
                    ux == u,
                    k == sum_links(ls0, tx_at(ux)),
                    c == nodes@[u as int].capacity_mpps / k,
                    i <= ls@.len(),
                    ls@.len() == ls0.len(),
                    forall|j: int| 0 <= j < ls0.len() ==> (#[trigger] ls0[j]).weight.tx < nodes@.len(),
                    forall|j: int|
                        0 <= j < ls0.len() ==> (#[trigger] ls@[j]) == (LogicalLink {
                            weight: EdgeWeight {
                                capacity_mpps: if ls0[j].weight.tx < u || (ls0[j].weight.tx == u && j < i) {
                                    share(
                                        nodes@[ls0[j].weight.tx as int].capacity_mpps,
                                        sum_links(ls0, tx_at(ls0[j].weight.tx)),
                                    )
                                } else {
                                    ls0[j].weight.capacity_mpps
                                },
                                ..ls0[j].weight
                            },
                            ..ls0[j]
                        }),
                decreases ls@.len() - i,
            {
                let ghost before = ls@;
                if ls[i].weight.tx == ux {
                    let l = ls[i];
                    ls.set(i, LogicalLink { weight: EdgeWeight { capacity_mpps: c, ..l.weight }, ..l });
                    assert(c == share(nodes@[u as int].capacity_mpps, sum_links(ls0, tx_at(ux))));
                }
                proof {
                    assert forall|j: int| 0 <= j < ls0.len() && j != i implies #[trigger] ls@[j] == before[j] by {}
                }
                i = i + 1;
            }
        } else {
            proof {
                assert forall|j: int| 0 <= j < ls0.len() implies (#[trigger] ls0[j]).weight.tx != u by {
                    if ls0[j].weight.tx == u {
                        lemma_sum_nonneg(ls0, tx_at(u as u32), j);
                    }
                }
            }
        }
        u = u + 1;
    }
}

proof fn lemma_tx_sum_same(a: Seq<LogicalLink>, b: Seq<LogicalLink>, x: u32)
    requires
        a.len() == b.len(),
        forall|i: int| 0 <= i < a.len() ==> (#[trigger] b[i]).weight.tx == a[i].weight.tx,
    ensures
        sum_links(b, tx_at(x)) == sum_links(a, tx_at(x)),
    decreases a.len(),
{
    if a.len() > 0 {
        assert forall|i: int| 0 <= i < a.len() - 1 implies (#[trigger] b.drop_last()[i]).weight.tx
            == a.drop_last()[i].weight.tx by {
            assert(b[i] == b.drop_last()[i]);
        }
        lemma_tx_sum_same(a.drop_last(), b.drop_last(), x);
        assert(b.last() == b[b.len() - 1]);
    }
}


/// True if some link goes from `m` to `s`.
fn has_link(ls: &Vec<LogicalLink>, m: u32, s: u32) -> (r: bool)
    ensures
        r == exists|i: int| 0 <= i < ls@.len() && (#[trigger] ls@[i]).master == m && ls@[i].slave == s,
{
    let mut i: usize = 0;
    while i < ls.len()
        invariant
            i <= ls@.len(),
            forall|j: int| 0 <= j < i ==> !((#[trigger] ls@[j]).master == m && ls@[j].slave == s),
        decreases ls@.len() - i,
    {
        if ls[i].master == m && ls[i].slave == s {
            return true;
        }
        i = i + 1;
    }
    false
}

/// Every ground station reaches every other one over `pairs`.
pub open spec fn ogs_connected(nodes: Seq<NodeWeight>, pairs: Seq<(u32, u32)>) -> bool {
    forall|a: u32, b: u32|
        a < nodes.len() && b < nodes.len() && a != b && nodes[a as int].node_type == NodeType::OGS
            && nodes[b as int].node_type == NodeType::OGS ==> #[trigger] reaches(pairs, a, b)
}

/// What holds of every logical topology derived from a physical one.
pub open spec fn derived_ok(nodes: Seq<NodeWeight>, edges: Seq<(u32, u32)>, ls: Seq<LogicalLink>) -> bool {
    &&& links_well_formed(nodes.len() as int, ls)
    &&& within_resources(nodes, ls)
    &&& ogs_connected(nodes, link_pairs(ls))
    &&& forall|i: int|
        0 <= i < ls.len() ==> possible_edge(
            nodes,
            edges,
            LogicalEdge { tx: (#[trigger] ls[i]).weight.tx, master: ls[i].master, slave: ls[i].slave },
        )
    &&& forall|i: int|
        0 <= i < ls.len() ==> (#[trigger] ls[i]).weight.capacity_mpps == share(
            nodes[ls[i].weight.tx as int].capacity_mpps,
            sum_links(ls, tx_at(ls[i].weight.tx)),
        )
}

/// State of the greedy admission of candidate links: what each node has
/// left, the links taken, and whether the ground stations are connected.
pub struct GreedyState {
    pub mem: Seq<u32>,
    pub det: Seq<u32>,
    pub trans: Seq<u32>,
    pub links: Seq<LogicalLink>,
    pub connected: bool,
}

/// Nothing taken yet.
pub open spec fn greedy_init(nodes: Seq<NodeWeight>) -> GreedyState {
    GreedyState {
        mem: nodes.map_values(|w: NodeWeight| w.memory_qubits),
        det: nodes.map_values(|w: NodeWeight| w.detectors),
        trans: nodes.map_values(|w: NodeWeight| w.transmitters),
        links: Seq::empty(),
        connected: false,
    }
}

/// Candidate `e` can be taken: its ends are not linked in that direction
/// yet, both have a memory qubit and a detector left, and its transmitter a
/// transmitter.
pub open spec fn admissible(st: GreedyState, e: LogicalEdge) -> bool {
    &&& !exists|i: int| 0 <= i < st.links.len() && (#[trigger] st.links[i]).master == e.master && st.links[i].slave == e.slave
    &&& st.mem[e.master as int] > 0
    &&& st.mem[e.slave as int] > 0
    &&& st.det[e.master as int] > 0
    &&& st.det[e.slave as int] > 0
    &&& st.trans[e.tx as int] > 0
}

/// Take candidate `e`, with one memory qubit.
pub open spec fn take_link(st: GreedyState, e: LogicalEdge) -> GreedyState {
    GreedyState {
        mem: st.mem.update(e.master as int, (st.mem[e.master as int] - 1) as u32).update(
            e.slave as int,
            (st.mem[e.slave as int] - 1) as u32,
        ),
        det: st.det.update(e.master as int, (st.det[e.master as int] - 1) as u32).update(
            e.slave as int,
            (st.det[e.slave as int] - 1) as u32,
        ),
        trans: st.trans.update(e.tx as int, (st.trans[e.tx as int] - 1) as u32),
        links: st.links.push(
            LogicalLink { master: e.master, slave: e.slave, weight: EdgeWeight { tx: e.tx, memory_qubits: 1, capacity_mpps: 0 } },
        ),
        connected: st.connected,
    }
}

/// Take candidate `e` if it can be taken, then check the ground stations.
pub open spec fn greedy_step(st: GreedyState, e: LogicalEdge, ogs: Seq<u32>) -> GreedyState {
    if admissible(st, e) {
        let a = take_link(st, e);
        GreedyState { connected: all_reach(link_pairs(a.links), ogs), ..a }
    } else {
        st
    }
}

/// The greedy pass over the candidates from `i` on, stopping once the
/// ground stations are connected.
pub open spec fn greedy_from(cands: Seq<LogicalEdge>, i: nat, st: GreedyState, ogs: Seq<u32>) -> GreedyState
    decreases cands.len() - i,
{
    if i >= cands.len() || st.connected {
        st
    } else {
        greedy_from(cands, i + 1, greedy_step(st, cands[i as int], ogs), ogs)
    }
}

/// The greedy admission over candidates in the given order: each is taken
/// if it can be, until the ground stations are all connected. Returns the
/// links taken, each with one memory qubit, the memory qubits each node has
/// left, and whether every ground station reaches every other.
pub fn admit_greedy(physical_topology: &PhysicalTopology, cands: &Vec<LogicalEdge>, ogs: &Vec<u32>) -> (r: (
    Vec<LogicalLink>,
    Vec<u32>,
    bool,
))
    requires
        physical_topology.wf(),
        forall|q: int| 0 <= q < cands@.len() ==> possible_edge(physical_topology.nodes_spec(), physical_topology.edges_spec(), #[trigger] cands@[q]),
        forall|q: int| 0 <= q < ogs@.len() ==> #[trigger] ogs@[q] < physical_topology.nodes_spec().len(),
    ensures
        r.0@ == greedy_from(cands@, 0, greedy_init(physical_topology.nodes_spec()), ogs@).links,
        r.1@ == greedy_from(cands@, 0, greedy_init(physical_topology.nodes_spec()), ogs@).mem,
        r.2 == all_reach(link_pairs(r.0@), ogs@),
        mem_accounted(physical_topology.nodes_spec(), r.1@, r.0@),
        forall|y: u32| y < physical_topology.nodes_spec().len() ==> #[trigger] sum_links(r.0@, det_at(y))
            <= physical_topology.nodes_spec()[y as int].detectors && sum_links(r.0@, tx_at(y))
            <= physical_topology.nodes_spec()[y as int].transmitters,
        forall|i: int| 0 <= i < r.0@.len() ==> (#[trigger] r.0@[i]).weight.capacity_mpps == 0,
        links_well_formed(physical_topology.nodes_spec().len() as int, r.0@),
        forall|i: int|
            0 <= i < r.0@.len() ==> possible_edge(
                physical_topology.nodes_spec(),
                physical_topology.edges_spec(),
                LogicalEdge { tx: (#[trigger] r.0@[i]).weight.tx, master: r.0@[i].master, slave: r.0@[i].slave },
            ),
{
    let ghost nodes = physical_topology.nodes_spec();
    let ghost edges = physical_topology.edges_spec();
    let n = physical_topology.node_count();
    let mut mem: Vec<u32> = Vec::new();
    let mut det: Vec<u32> = Vec::new();
    let mut trans: Vec<u32> = Vec::new();
    let mut x: usize = 0;
    while x < n
        invariant
            n == nodes.len(),
            nodes == physical_topology.nodes_spec(),
            x <= n,
            mem@.len() == x,
            det@.len() == x,
            trans@.len() == x,
            forall|y: int| 0 <= y < x ==> #[trigger] mem@[y] == nodes[y].memory_qubits,
            forall|y: int| 0 <= y < x ==> #[trigger] det@[y] == nodes[y].detectors,
            forall|y: int| 0 <= y < x ==> #[trigger] trans@[y] == nodes[y].transmitters,
        decreases n - x,
    {
        let w = physical_topology.nodes()[x];
        mem.push(w.memory_qubits);
        det.push(w.detectors);
        trans.push(w.transmitters);
        x = x + 1;
    }
    let mut ls: Vec<LogicalLink> = Vec::new();
    let mut pairs: Vec<(u32, u32)> = Vec::new();
    let mut connected = false;
    let mut k: usize = 0;
    proof {
        assert(mem@ =~= nodes.map_values(|w: NodeWeight| w.memory_qubits));
        assert(det@ =~= nodes.map_values(|w: NodeWeight| w.detectors));
        assert(trans@ =~= nodes.map_values(|w: NodeWeight| w.transmitters));
        assert(ls@ =~= Seq::<LogicalLink>::empty());
    }
    while k < cands.len() && !connected
        invariant
            n == nodes.len() <= u32::MAX,
            nodes == physical_topology.nodes_spec(),
            edges == physical_topology.edges_spec(),
            k <= cands@.len(),
            forall|q: int| 0 <= q < cands@.len() ==> possible_edge(nodes, edges, #[trigger] cands@[q]),
            forall|q: int| 0 <= q < ogs@.len() ==> #[trigger] ogs@[q] < n,
            mem_accounted(nodes, mem@, ls@),
            det@.len() == n,
            trans@.len() == n,
            forall|y: u32|
                y < n ==> det@[y as int] + #[trigger] sum_links(ls@, det_at(y)) == nodes[y as int].detectors,
            forall|y: u32|
                y < n ==> trans@[y as int] + #[trigger] sum_links(ls@, tx_at(y))
                    == nodes[y as int].transmitters,
            forall|i: int| 0 <= i < ls@.len() ==> (#[trigger] ls@[i]).weight.capacity_mpps == 0,
            links_well_formed(n as int, ls@),
            forall|i: int|
                0 <= i < ls@.len() ==> possible_edge(
                    nodes,
                    edges,
                    LogicalEdge { tx: (#[trigger] ls@[i]).weight.tx, master: ls@[i].master, slave: ls@[i].slave },
                ),
            pairs@ == link_pairs(ls@),
            connected == (ls@.len() > 0 && all_reach(pairs@, ogs@)),
            greedy_from(cands@, 0, greedy_init(nodes), ogs@) == greedy_from(
                cands@,
                k as nat,
                GreedyState { mem: mem@, det: det@, trans: trans@, links: ls@, connected },
                ogs@,
            ),
        decreases cands@.len() - k,
    {
        let e = cands[k];
        let ghost st0 = GreedyState { mem: mem@, det: det@, trans: trans@, links: ls@, connected };
        let m = e.master as usize;
        let s = e.slave as usize;
        let t = e.tx as usize;
        if !has_link(&ls, e.master, e.slave) && mem[m] > 0 && mem[s] > 0 && det[m] > 0 && det[s] > 0
            && trans[t] > 0 {
            let ghost ls0 = ls@;
            let l = LogicalLink {
                master: e.master,
                slave: e.slave,
                weight: EdgeWeight { tx: e.tx, memory_qubits: 1, capacity_mpps: 0 },
            };
            let v = mem[m] - 1;
            mem.set(m, v);
            let v = mem[s] - 1;
            mem.set(s, v);
            let v = det[m] - 1;
            det.set(m, v);
            let v = det[s] - 1;
            det.set(s, v);
            let v = trans[t] - 1;
            trans.set(t, v);
            ls.push(l);
            pairs.push((e.master, e.slave));
            proof {
                assert forall|y: u32| y < n implies {
                    &&& mem@[y as int] + #[trigger] sum_links(ls@, mem_at(y)) == nodes[y as int].memory_qubits
                    &&& det@[y as int] + sum_links(ls@, det_at(y)) == nodes[y as int].detectors
                    &&& trans@[y as int] + sum_links(ls@, tx_at(y)) == nodes[y as int].transmitters
                } by {
                    lemma_sum_push(ls0, l, mem_at(y));
                    lemma_sum_push(ls0, l, det_at(y));
                    lemma_sum_push(ls0, l, tx_at(y));
                }
                assert forall|y: u32| y < n implies #[trigger] sum_links(ls@, det_at(y)) + det@[y as int]
                    == nodes[y as int].detectors by {
                    lemma_sum_push(ls0, l, det_at(y));
                }
                assert forall|y: u32| y < n implies #[trigger] sum_links(ls@, tx_at(y)) + trans@[y as int]
                    == nodes[y as int].transmitters by {
                    lemma_sum_push(ls0, l, tx_at(y));
                }
                assert(pairs@ =~= link_pairs(ls@));
                assert(ls@[ls@.len() - 1] == l);
            }
            connected = reachable(n as u32, &pairs, &ogs);
            proof {
                assert(admissible(st0, e));
                assert(mem@ =~= take_link(st0, e).mem);
                assert(det@ =~= take_link(st0, e).det);
                assert(trans@ =~= take_link(st0, e).trans);
                assert(ls@ =~= take_link(st0, e).links);
            }
        } else {
            proof {
                assert(!admissible(st0, e));
            }
        }
        k = k + 1;
    }
    proof {
        let st = GreedyState { mem: mem@, det: det@, trans: trans@, links: ls@, connected };
        assert(greedy_from(cands@, k as nat, st, ogs@) == st);
        assert forall|y: u32| y < n implies #[trigger] sum_links(ls@, det_at(y)) <= nodes[y as int].detectors
            && sum_links(ls@, tx_at(y)) <= nodes[y as int].transmitters by {
            assert(det@[y as int] + sum_links(ls@, det_at(y)) == nodes[y as int].detectors);
            assert(trans@[y as int] + sum_links(ls@, tx_at(y)) == nodes[y as int].transmitters);
        }
    }
    let ok = reachable(n as u32, &pairs, &ogs);
    (ls, mem, ok)

}

/// No link could take one more memory qubit: one of its ends gave all of
/// its memory qubits to links.
pub open spec fn memory_handed_out(nodes: Seq<NodeWeight>, ls: Seq<LogicalLink>) -> bool {
    forall|i: int|
        0 <= i < ls.len() ==> sum_links(ls, mem_at((#[trigger] ls[i]).master)) == nodes[ls[i].master as int].memory_qubits
            || sum_links(ls, mem_at(ls[i].slave)) == nodes[ls[i].slave as int].memory_qubits
}

/// `r` is what the greedy admission makes of the candidates in `order`, a
/// shuffle of all possible links, with `ogs` the ground stations in
/// increasing order: it fails exactly when the pass never connects them,
/// and otherwise keeps the links taken, in order.
pub open spec fn greedy_outcome(
    nodes: Seq<NodeWeight>,
    edges: Seq<(u32, u32)>,
    order: Seq<LogicalEdge>,
    ogs: Seq<u32>,
    r: Result<Vec<LogicalLink>, SimError>,
) -> bool {
    let g = greedy_from(order, 0, greedy_init(nodes), ogs);
    &&& forall|e: LogicalEdge| possible_edge(nodes, edges, e) <==> #[trigger] order.contains(e)
    &&& forall|k: int| 0 <= k < ogs.len() ==> (#[trigger] ogs[k]) < nodes.len() && nodes[ogs[k] as int].node_type == NodeType::OGS
    &&& forall|k1: int, k2: int| 0 <= k1 < k2 < ogs.len() ==> ogs[k1] < ogs[k2]
    &&& forall|i: u32| i < nodes.len() && nodes[i as int].node_type == NodeType::OGS ==> #[trigger] ogs.contains(i)
    &&& (r is Err <==> !all_reach(link_pairs(g.links), ogs))
    &&& r matches Ok(ls) ==> link_pairs(ls@) == link_pairs(g.links)
}

/// The greedy admission, over some shuffle of the possible links, never
/// connected the ground stations.
pub open spec fn greedy_fails(nodes: Seq<NodeWeight>, edges: Seq<(u32, u32)>) -> bool {
    exists|order: Seq<LogicalEdge>, ogs: Seq<u32>|
        #[trigger] greedy_outcome(nodes, edges, order, ogs, Err::<Vec<LogicalLink>, SimError>(SimError::TopologyInfeasible))
}

/// Derive a logical topology by the random-greedy policy. The possible
/// links are visited in a random order, and each is taken if its ends have a
/// free memory qubit and detector each, its transmitter a free transmitter,
/// and no link joins its ends in that direction yet; this stops as soon as
/// every ground station reaches every other one. The memory qubits left are
/// then handed out to the links, and each transmitter's rate is divided
/// evenly among its links. Fails if the ground stations are never all
/// connected.
pub fn physical_to_logical_random_greedy(
    physical_topology: &PhysicalTopology,
    rng: &mut rand::rngs::StdRng,
) -> (r: Result<Vec<LogicalLink>, SimError>)
    requires
        physical_topology.wf(),
    ensures
        r matches Ok(ls) ==> derived_ok(physical_topology.nodes_spec(), physical_topology.edges_spec(), ls@),
        r matches Err(e) ==> e == SimError::TopologyInfeasible,
        r matches Ok(ls) ==> memory_handed_out(physical_topology.nodes_spec(), ls@),
        exists|order: Seq<LogicalEdge>, ogs: Seq<u32>| #[trigger] greedy_outcome(physical_topology.nodes_spec(), physical_topology.edges_spec(), order, ogs, r),
{
    let ghost nodes = physical_topology.nodes_spec();
    let ghost edges = physical_topology.edges_spec();
    let mut cands = find_possible_logical_edges(physical_topology);
    let ghost c0 = cands@;
    shuffle_items(&mut cands, rng);
    proof {
        assert forall|k: int| 0 <= k < cands@.len() implies possible_edge(nodes, edges, #[trigger] cands@[k]) by {
            assert(cands@.contains(cands@[k]));
            assert(cands@.to_multiset().count(cands@[k]) > 0);
            assert(c0.contains(cands@[k]));
        }
    }
    let n = physical_topology.node_count();
    let ogs = physical_topology.ogs_indices();
    let (mut ls, mut mem, ok) = admit_greedy(physical_topology, &cands, &ogs);
    proof {
        assert forall|e: LogicalEdge| possible_edge(nodes, edges, e) <==> #[trigger] cands@.contains(e) by {
            if possible_edge(nodes, edges, e) {
                assert(c0.contains(e));
                assert(c0.to_multiset().count(e) > 0);
                assert(cands@.to_multiset().count(e) > 0);
            }
            if cands@.contains(e) {
                let k = choose|k: int| 0 <= k < cands@.len() && cands@[k] == e;
                assert(possible_edge(nodes, edges, cands@[k]));
            }
        }
    }
    if !ok {
        assert(greedy_outcome(nodes, edges, cands@, ogs@, Err::<Vec<LogicalLink>, SimError>(SimError::TopologyInfeasible)));
        return Err(SimError::TopologyInfeasible);
    }
    let ghost order = cands@;
    let ghost g_links = ls@;

    let ghost adm = ls@;
    distribute_memory(Ghost(nodes), &mut mem, &mut ls, rng);
    proof {
        assert forall|y: u32| y < n implies #[trigger] sum_links(ls@, det_at(y)) == sum_links(adm, det_at(y))
            && sum_links(ls@, tx_at(y)) == sum_links(adm, tx_at(y)) by {
            lemma_same_but_memory_sums(adm, ls@, y);
        }
        lemma_same_but_memory_sums(adm, ls@, 0);
    }
    let ghost dist = ls@;
    divide_capacity(physical_topology.nodes(), &mut ls);
    proof {
        let fin = ls@;
        assert forall|i: int| 0 <= i < fin.len() implies (#[trigger] fin[i]).master == dist[i].master
            && fin[i].slave == dist[i].slave && fin[i].weight.tx == dist[i].weight.tx
            && fin[i].weight.memory_qubits == dist[i].weight.memory_qubits by {}
        assert(link_pairs(fin) =~= link_pairs(dist));
        assert forall|y: u32| true implies #[trigger] sum_links(fin, mem_at(y)) == sum_links(dist, mem_at(y))
            && sum_links(fin, det_at(y)) == sum_links(dist, det_at(y)) && sum_links(fin, tx_at(y))
            == sum_links(dist, tx_at(y)) by {
            lemma_caps_only(dist, fin, y);
        }
        assert forall|a: u32, b: u32|
            a < nodes.len() && b < nodes.len() && a != b && nodes[a as int].node_type == NodeType::OGS
                && nodes[b as int].node_type == NodeType::OGS implies #[trigger] reaches(link_pairs(fin), a, b) by {
            assert(ogs@.contains(a));
            assert(ogs@.contains(b));
            let p = choose|p: int| 0 <= p < ogs@.len() && ogs@[p] == a;
            let q = choose|q: int| 0 <= q < ogs@.len() && ogs@[q] == b;
            assert(reaches(link_pairs(adm), ogs@[p], ogs@[q]));
        }
        assert forall|y: u32| y < nodes.len() implies {
            &&& #[trigger] sum_links(fin, mem_at(y)) <= nodes[y as int].memory_qubits
            &&& sum_links(fin, det_at(y)) <= nodes[y as int].detectors
            &&& sum_links(fin, tx_at(y)) <= nodes[y as int].transmitters
            &&& sum_links(fin, cap_at(y)) <= nodes[y as int].capacity_mpps
        } by {
            let kk = sum_links(fin, tx_at(y));
            let cap = nodes[y as int].capacity_mpps;
            lemma_sum_ge_zero(fin, tx_at(y));
            lemma_same_but_memory_sums(adm, dist, y);
            lemma_caps_only(dist, fin, y);
            lemma_tx_sum_same(dist, fin, y);
            assert(mem@[y as int] + sum_links(dist, mem_at(y)) == nodes[y as int].memory_qubits);
            assert(sum_links(adm, det_at(y)) <= nodes[y as int].detectors);
            assert(sum_links(adm, tx_at(y)) <= nodes[y as int].transmitters);
            if kk > 0 {
                assert forall|i: int| 0 <= i < fin.len() && (#[trigger] fin[i]).weight.tx == y
                    implies fin[i].weight.capacity_mpps == share(cap, kk) by {}
                lemma_sum_cap(fin, y, share(cap, kk) as int);
                assert((cap as int / kk) * kk <= cap) by (nonlinear_arith)
                    requires kk > 0, cap >= 0;
            } else {
                assert forall|i: int| 0 <= i < fin.len() && (#[trigger] fin[i]).weight.tx == y
                    implies fin[i].weight.capacity_mpps == 0 by {
                    lemma_sum_nonneg(fin, tx_at(y), i);
                }
                lemma_sum_cap(fin, y, 0);
            }
        }
        assert forall|i: int| 0 <= i < fin.len() implies possible_edge(
            nodes,
            edges,
            LogicalEdge { tx: (#[trigger] fin[i]).weight.tx, master: fin[i].master, slave: fin[i].slave },
        ) by {
            assert(adm[i].master == fin[i].master);
        }
        assert forall|i: int| 0 <= i < fin.len() implies (#[trigger] fin[i]).weight.capacity_mpps == share(
            nodes[fin[i].weight.tx as int].capacity_mpps,
            sum_links(fin, tx_at(fin[i].weight.tx)),
        ) by {
            lemma_tx_sum_same(dist, fin, fin[i].weight.tx);
        }
        assert(link_pairs(fin) == link_pairs(g_links));
        assert forall|a: int, b: int|
            0 <= a < fin.len() && 0 <= b < fin.len() && a != b implies ((#[trigger] fin[a]).master,
        fin[a].slave) != ((#[trigger] fin[b]).master, fin[b].slave) by {
            assert(dist[a].master == fin[a].master);
            assert(dist[b].master == fin[b].master);
        }
        assert(greedy_outcome(nodes, edges, order, ogs@, Ok::<Vec<LogicalLink>, SimError>(ls)));
        assert forall|i: int| 0 <= i < fin.len() implies sum_links(fin, mem_at((#[trigger] fin[i]).master)) == nodes[fin[i].master as int].memory_qubits
            || sum_links(fin, mem_at(fin[i].slave)) == nodes[fin[i].slave as int].memory_qubits by {
            assert(exhausted(mem@, dist[i]));
            lemma_caps_only(dist, fin, fin[i].master);
            lemma_caps_only(dist, fin, fin[i].slave);
            assert(mem@[dist[i].master as int] + sum_links(dist, mem_at(dist[i].master)) == nodes[dist[i].master as int].memory_qubits);
            assert(mem@[dist[i].slave as int] + sum_links(dist, mem_at(dist[i].slave)) == nodes[dist[i].slave as int].memory_qubits);
        }
    }
    Ok(ls)
}

proof fn lemma_caps_only(a: Seq<LogicalLink>, b: Seq<LogicalLink>, x: u32)
    requires
        a.len() == b.len(),
        forall|i: int|
            0 <= i < a.len() ==> (#[trigger] b[i]).master == a[i].master && b[i].slave == a[i].slave
                && b[i].weight.tx == a[i].weight.tx && b[i].weight.memory_qubits
                == a[i].weight.memory_qubits,
    ensures
        sum_links(b, mem_at(x)) == sum_links(a, mem_at(x)),
        sum_links(b, det_at(x)) == sum_links(a, det_at(x)),
        sum_links(b, tx_at(x)) == sum_links(a, tx_at(x)),
    decreases a.len(),
{
    if a.len() > 0 {
        assert forall|i: int| 0 <= i < a.len() - 1 implies (#[trigger] b.drop_last()[i]).master
            == a.drop_last()[i].master && b.drop_last()[i].slave == a.drop_last()[i].slave
            && b.drop_last()[i].weight.tx == a.drop_last()[i].weight.tx
            && b.drop_last()[i].weight.memory_qubits == a.drop_last()[i].weight.memory_qubits by {
            assert(b[i] == b.drop_last()[i]);
        }
        lemma_caps_only(a.drop_last(), b.drop_last(), x);
        assert(b.last() == b[b.len() - 1]);
    }
}


/// A valid logical topology: ground stations all connected, links well
/// formed, each with a positive rate, and no node over its resources.
pub open spec fn valid_logical(nodes: Seq<NodeWeight>, ls: Seq<LogicalLink>) -> bool {
    &&& ogs_connected(nodes, link_pairs(ls))
    &&& links_well_formed(nodes.len() as int, ls)
    &&& forall|i: int| 0 <= i < ls.len() ==> (#[trigger] ls[i]).weight.capacity_mpps > 0
    &&& within_resources(nodes, ls)
}

/// Check one resource of node `x` against its limit.
fn within_limit(ls: &Vec<LogicalLink>, f: Ghost<spec_fn(LogicalLink) -> int>, x: u32, which: u8, limit: u64) -> (r: bool)
    requires
        which <= 3,
        f@ == (if which == 0 {
            mem_at(x)
        } else if which == 1 {
            det_at(x)
        } else if which == 2 {
            tx_at(x)
        } else {
            cap_at(x)
        }),
    ensures
        r == (sum_links(ls@, f@) <= limit),
{
    let mut acc: u128 = 0;
    let mut i: usize = 0;
    while i < ls.len()
        invariant
            which <= 3,
            f@ == (if which == 0 {
                mem_at(x)
            } else if which == 1 {
                det_at(x)
            } else if which == 2 {
                tx_at(x)
            } else {
                cap_at(x)
            }),
            i <= ls@.len(),
            acc == sum_links(ls@.subrange(0, i as int), f@),
            acc <= limit,
        decreases ls@.len() - i,
    {
        assert(ls@.subrange(0, i + 1).drop_last() =~= ls@.subrange(0, i as int));
        assert(ls@.subrange(0, i + 1).last() == ls@[i as int]);
        let l = ls[i];
        let incident = l.master == x || l.slave == x;
        let term: u128 = if which == 0 {
            if incident { l.weight.memory_qubits as u128 } else { 0 }
        } else if which == 1 {
            if incident { 1 } else { 0 }
        } else if which == 2 {
            if l.weight.tx == x { 1 } else { 0 }
        } else {
            if l.weight.tx == x { l.weight.capacity_mpps as u128 } else { 0 }
        };
        acc = acc + term;
        i = i + 1;
        if acc > limit as u128 {
            proof {
                assert forall|l: LogicalLink| #[trigger] f@(l) >= 0 by {}
                lemma_sum_split_ge(ls@, i as int, f@);
            }
            return false;
        }
    }
    assert(ls@.subrange(0, i as int) =~= ls@);
    true
}

proof fn lemma_sum_split_ge(ls: Seq<LogicalLink>, i: int, f: spec_fn(LogicalLink) -> int)
    requires
        0 <= i <= ls.len(),
        forall|l: LogicalLink| #[trigger] f(l) >= 0,
    ensures
        sum_links(ls, f) >= sum_links(ls.subrange(0, i), f),
    decreases ls.len(),
{
    if i < ls.len() {
        lemma_sum_split_ge(ls.drop_last(), i, f);
        assert(ls.drop_last().subrange(0, i) =~= ls.subrange(0, i));
    } else {
        assert(ls.subrange(0, i) =~= ls);
    }
}

/// Check that a logical topology is valid for the physical one.
pub fn is_valid(ls: &Vec<LogicalLink>, physical_topology: &PhysicalTopology) -> (r: Result<(), SimError>)
    requires
        physical_topology.wf(),
    ensures
        r is Ok <==> valid_logical(physical_topology.nodes_spec(), ls@),
        r matches Err(e) ==> e == SimError::TopologyInfeasible,
{
    let ghost nodes = physical_topology.nodes_spec();
    let n = physical_topology.node_count();
    let mut i: usize = 0;
    while i < ls.len()
        invariant
            n == nodes.len() <= u32::MAX,
            nodes == physical_topology.nodes_spec(),
            i <= ls@.len(),
            forall|k: int|
                0 <= k < i ==> {
                    &&& (#[trigger] ls@[k]).master < n
                    &&& ls@[k].slave < n
                    &&& ls@[k].weight.tx < n
                    &&& ls@[k].master != ls@[k].slave
                    &&& ls@[k].weight.memory_qubits >= 1
                    &&& ls@[k].weight.capacity_mpps > 0
                },
            forall|a: int, b: int|
                0 <= a < i && 0 <= b < ls@.len() && a != b ==> ((#[trigger] ls@[a]).master, ls@[a].slave)
                    != ((#[trigger] ls@[b]).master, ls@[b].slave),
        decreases ls@.len() - i,
    {
        let l = ls[i];
        if l.master as usize >= n || l.slave as usize >= n || l.weight.tx as usize >= n
            || l.master == l.slave || l.weight.memory_qubits == 0 || l.weight.capacity_mpps == 0 {
            assert(ls@[i as int] == l);
            assert(!valid_logical(nodes, ls@));
            return Err(SimError::TopologyInfeasible);
        }
        let mut j: usize = 0;
        while j < ls.len()
            invariant
                i < ls@.len(),
                l == ls@[i as int],
                j <= ls@.len(),
                forall|b: int|
                    0 <= b < j && b != i ==> (l.master, l.slave) != ((#[trigger] ls@[b]).master, ls@[b].slave),
            decreases ls@.len() - j,
        {
            if j != i && ls[j].master == l.master && ls[j].slave == l.slave {
                return Err(SimError::TopologyInfeasible);
            }
            j = j + 1;
        }
        i = i + 1;
    }
    proof {
        assert(links_well_formed(n as int, ls@));
    }
    let pairs = link_pairs_exec(ls);
    let ogs = physical_topology.ogs_indices();
    if !reachable(n as u32, &pairs, &ogs) {
        proof {
            assert(!all_reach(pairs@, ogs@));
            let (a, b) = choose|a: int, b: int|
                0 <= a < ogs@.len() && 0 <= b < ogs@.len() && ogs@[a] != ogs@[b] && !reaches(
                    pairs@,
                    #[trigger] ogs@[a],
                    #[trigger] ogs@[b],
                );
            assert(!reaches(link_pairs(ls@), ogs@[a], ogs@[b]));
        }
        return Err(SimError::TopologyInfeasible);
    }
    proof {
        assert forall|a: u32, b: u32|
            a < nodes.len() && b < nodes.len() && a != b && nodes[a as int].node_type == NodeType::OGS
                && nodes[b as int].node_type == NodeType::OGS implies #[trigger] reaches(link_pairs(ls@), a, b) by {
            assert(ogs@.contains(a));
            assert(ogs@.contains(b));
            let p = choose|p: int| 0 <= p < ogs@.len() && ogs@[p] == a;
            let q = choose|q: int| 0 <= q < ogs@.len() && ogs@[q] == b;
            assert(reaches(pairs@, ogs@[p], ogs@[q]));
        }
    }
    let mut x: usize = 0;
    while x < n
        invariant
            n == nodes.len() <= u32::MAX,
            nodes == physical_topology.nodes_spec(),
            x <= n,
            forall|y: u32|
                y < x ==> {
                    &&& #[trigger] sum_links(ls@, mem_at(y)) <= nodes[y as int].memory_qubits
                    &&& sum_links(ls@, det_at(y)) <= nodes[y as int].detectors
                    &&& sum_links(ls@, tx_at(y)) <= nodes[y as int].transmitters
                    &&& sum_links(ls@, cap_at(y)) <= nodes[y as int].capacity_mpps
                },
        decreases n - x,
    {
        let w = physical_topology.nodes()[x];
        let y = x as u32;
        if !within_limit(ls, Ghost(mem_at(y)), y, 0, w.memory_qubits as u64) || !within_limit(
            ls,
            Ghost(det_at(y)),
            y,
            1,
            w.detectors as u64,
        ) || !within_limit(ls, Ghost(tx_at(y)), y, 2, w.transmitters as u64) || !within_limit(
            ls,
            Ghost(cap_at(y)),
            y,
            3,
            w.capacity_mpps,
        ) {
            return Err(SimError::TopologyInfeasible);
        }
        x = x + 1;
    }
    Ok(())
}


/// Hop counts from every node to every other one over the links.
pub fn find_paths(num_nodes: u32, ls: &Vec<LogicalLink>) -> (r: Vec<Vec<Option<u64>>>)
    ensures
        r@.len() == num_nodes,
        forall|s: int| 0 <= s < num_nodes ==> hop_row(link_pairs(ls@), s as u32, num_nodes, #[trigger] r@[s]@),
{
    let pairs = link_pairs_exec(ls);
    let mut r: Vec<Vec<Option<u64>>> = Vec::new();
    let mut s: u32 = 0;
    while s < num_nodes
        invariant
            s <= num_nodes,
            pairs@ == link_pairs(ls@),
            r@.len() == s,
            forall|q: int| 0 <= q < s ==> hop_row(link_pairs(ls@), q as u32, num_nodes, #[trigger] r@[q]@),
        decreases num_nodes - s,
    {
        r.push(hop_distances(num_nodes, &pairs, s));
        s = s + 1;
    }
    r
}

/// A logical topology with its hop counts, read-only once built.
pub struct LogicalTopology {
    num_nodes: u32,
    links: Vec<LogicalLink>,
    paths: Vec<Vec<Option<u64>>>,
}

impl LogicalTopology {
    pub closed spec fn num_nodes_spec(&self) -> u32 {
        self.num_nodes
    }

    pub closed spec fn links_spec(&self) -> Seq<LogicalLink> {
        self.links@
    }

    /// Least number of links from `u` to `v`, None if no path leads there
    /// or a node is missing.
    pub closed spec fn distance_spec(&self, u: u32, v: u32) -> Option<u64> {
        if u < self.num_nodes && v < self.num_nodes {
            self.paths@[u as int]@[v as int]
        } else {
            None
        }
    }

    /// The links are well formed and the hop counts are theirs.
    pub closed spec fn wf(&self) -> bool {
        &&& links_well_formed(self.num_nodes as int, self.links@)
        &&& self.paths@.len() == self.num_nodes
        &&& forall|s: int|
            0 <= s < self.num_nodes ==> hop_row(
                link_pairs(self.links@),
                s as u32,
                self.num_nodes,
                #[trigger] self.paths@[s]@,
            )
    }

    /// The topology with no node.
    pub fn new() -> (r: Self)
        ensures
            r.wf(),
            r.num_nodes_spec() == 0,
            r.links_spec().len() == 0,
    {
        LogicalTopology { num_nodes: 0, links: Vec::new(), paths: Vec::new() }
    }

    /// The links.
    pub fn links(&self) -> (r: &Vec<LogicalLink>)
        ensures
            r@ == self.links_spec(),
    {
        &self.links
    }

    /// Number of nodes.
    pub fn num_nodes(&self) -> (r: u32)
        ensures
            r == self.num_nodes_spec(),
    {
        self.num_nodes
    }

    /// Least number of links from `u` to `v`, None if no path leads there
    /// or a node is missing.
    pub fn distance(&self, u: u32, v: u32) -> (r: Option<u64>)
        requires
            self.wf(),
        ensures
            r == self.distance_spec(u, v),
            u < self.num_nodes_spec() && v < self.num_nodes_spec() ==> match r {
                Some(d) => reach_within(link_pairs(self.links_spec()), u, v, d as nat) && (d == 0
                    || !reach_within(link_pairs(self.links_spec()), u, v, (d - 1) as nat)),
                None => !reaches(link_pairs(self.links_spec()), u, v),
            },
    {
        if u < self.num_nodes && v < self.num_nodes {
            proof {
                assert(hop_row(link_pairs(self.links@), u, self.num_nodes, self.paths@[u as int]@));
            }
            self.paths[u as usize][v as usize]
        } else {
            None
        }
    }

    /// Derive the logical topology of a physical one by the given policy,
    /// with its hop counts.
    pub fn from_physical_topology(
        policy: &PhysicalToLogicalPolicy,
        physical_topology: &PhysicalTopology,
        rng: &mut rand::rngs::StdRng,
    ) -> (r: Result<Self, SimError>)
        requires
            physical_topology.wf(),
        ensures
            r matches Ok(t) ==> {
                &&& t.wf()
                &&& t.num_nodes_spec() == physical_topology.nodes_spec().len()
                &&& derived_ok(physical_topology.nodes_spec(), physical_topology.edges_spec(), t.links_spec())
                &&& forall|a: u32, b: u32|
                    a < t.num_nodes_spec() && b < t.num_nodes_spec() && a != b
                        && physical_topology.nodes_spec()[a as int].node_type == NodeType::OGS
                        && physical_topology.nodes_spec()[b as int].node_type == NodeType::OGS
                        ==> (#[trigger] t.distance_spec(a, b)) is Some
            },
            r matches Err(e) ==> e == SimError::TopologyInfeasible,
            r is Err ==> greedy_fails(physical_topology.nodes_spec(), physical_topology.edges_spec()),
    {
        let links = match policy {
            PhysicalToLogicalPolicy::RandomGreedy => physical_to_logical_random_greedy(physical_topology, rng),
        };
        match links {
            Err(e) => Err(e),
            Ok(links) => {
                let n = physical_topology.node_count() as u32;
                let paths = find_paths(n, &links);
                let t = LogicalTopology { num_nodes: n, links, paths };
                proof {
                    assert forall|a: u32, b: u32|
                        a < n && b < n && a != b
                            && physical_topology.nodes_spec()[a as int].node_type == NodeType::OGS
                            && physical_topology.nodes_spec()[b as int].node_type == NodeType::OGS
                            implies (#[trigger] t.distance_spec(a, b)) is Some by {
                        assert(reaches(link_pairs(t.links@), a, b));
                        assert(hop_row(link_pairs(t.links@), a, n, t.paths@[a as int]@));
                    }
                }
                Ok(t)
            },
        }
    }
}

/// `p` is a path of links from `src` to `dst`.
pub open spec fn is_path(ls: Seq<LogicalLink>, p: Seq<u32>, src: u32, dst: u32) -> bool {
    &&& p.len() >= 1
    &&& p[0] == src
    &&& p[p.len() - 1] == dst
    &&& forall|k: int| 0 <= k < p.len() - 1 ==> link_pairs(ls).contains((#[trigger] p[k], p[k + 1]))
}

impl LogicalTopology {
    /// A shortest path of links from `src` to `dst`, None if there is none.
    #[verifier::rlimit(80)]
    pub fn path(&self, src: u32, dst: u32) -> (r: Option<Vec<u32>>)
        requires
            self.wf(),
        ensures
            r is None <==> self.distance_spec(src, dst) is None,
            r matches Some(p) ==> is_path(self.links_spec(), p@, src, dst) && p@.len() == self.distance_spec(
                src,
                dst,
            ).unwrap() + 1,
    {
        let d0 = match self.distance(src, dst) {
            Some(d) => d,
            None => {
                return None;
            },
        };
        let ghost edges = link_pairs(self.links@);
        let mut p: Vec<u32> = vec![src];
        let mut cur = src;
        let mut d = d0;
        while cur != dst
            invariant
                self.wf(),
                edges == link_pairs(self.links@),
                src < self.num_nodes && dst < self.num_nodes,
                cur < self.num_nodes,
                d <= d0,
                self.distance_spec(cur, dst) == Some(d),
                reach_within(edges, cur, dst, d as nat),
                d == 0 || !reach_within(edges, cur, dst, (d - 1) as nat),
                p@.len() == d0 - d + 1,
                p@[0] == src,
                p@[p@.len() - 1] == cur,
                forall|k: int| 0 <= k < p@.len() - 1 ==> edges.contains((#[trigger] p@[k], p@[k + 1])),
            decreases d,
        {
            let ghost gi = lemma_reach_first_edge(edges, cur, dst, d as nat);
            proof {
                let w = edges[gi].1;
                assert(edges[gi] == (self.links@[gi].master, self.links@[gi].slave));
                assert(hop_row(edges, w, self.num_nodes, self.paths@[w as int]@));
                match self.paths@[w as int]@[dst as int] {
                    Some(e) => {
                        if e > d - 1 {
                            lemma_reach_mono(edges, w, dst, (d - 1) as nat, (e - 1) as nat);
                        }
                        lemma_reach_prepend(edges, gi, dst, e as nat);
                        if e + 1 < d {
                            lemma_reach_mono(edges, cur, dst, (e + 1) as nat, (d - 1) as nat);
                        }
                    },
                    None => {},
                }
            }
            let mut k: usize = 0;
            let mut next: Option<u32> = None;
            while k < self.links.len()
                invariant
                    self.wf(),
                    edges == link_pairs(self.links@),
                    d >= 1,
                    0 <= gi < self.links@.len(),
                    self.links@[gi].master == cur,
                    self.distance_spec(self.links@[gi].slave, dst) == Some((d - 1) as u64),
                    k <= self.links@.len(),
                    next is None ==> k <= gi,
                    next matches Some(w) ==> w < self.num_nodes && edges.contains((cur, w)) && self.distance_spec(
                        w,
                        dst,
                    ) == Some((d - 1) as u64),
                decreases self.links@.len() - k,
            {
                let l = self.links[k];
                if next.is_none() && l.master == cur {
                    if self.distance(l.slave, dst) == Some(d - 1) {
                        assert(edges[k as int] == (cur, l.slave));
                        next = Some(l.slave);
                    }
                }
                k = k + 1;
            }
            let w = next.unwrap();
            proof {
                assert(hop_row(edges, w, self.num_nodes, self.paths@[w as int]@));
            }
            let ghost p0 = p@;
            p.push(w);
            proof {
                assert forall|k: int| 0 <= k < p@.len() - 1 implies edges.contains((#[trigger] p@[k], p@[k + 1])) by {
                    if k < p0.len() - 1 {
                        assert(p@[k] == p0[k] && p@[k + 1] == p0[k + 1]);
                    }
                }
            }
            cur = w;
            d = d - 1;
        }
        proof {
            if d > 0 {
                assert(reach_within(edges, dst, dst, 0));
                lemma_reach_mono(edges, dst, dst, 0, (d - 1) as nat);
            }
        }
        Some(p)
    }
}

/// Two links of a well-formed topology join different ordered pairs.
pub proof fn lemma_links_distinct(t: &LogicalTopology, a: int, b: int)
    requires
        t.wf(),
        0 <= a < t.links_spec().len(),
        0 <= b < t.links_spec().len(),
        a != b,
    ensures
        (t.links_spec()[a].master, t.links_spec()[a].slave) != (t.links_spec()[b].master, t.links_spec()[b].slave),
{
}

/// Every link of a well-formed topology joins two of its nodes.
pub proof fn lemma_link_in_range(t: &LogicalTopology, k: int)
    requires
        t.wf(),
        0 <= k < t.links_spec().len(),
    ensures
        t.links_spec()[k].master < t.num_nodes_spec(),
        t.links_spec()[k].slave < t.num_nodes_spec(),
        t.links_spec()[k].weight.tx < t.num_nodes_spec(),
        t.links_spec()[k].master != t.links_spec()[k].slave,
{
}

impl Default for LogicalTopology {
    fn default() -> (r: Self)
        ensures
            r.wf(),
            r.num_nodes_spec() == 0,
            r.links_spec().len() == 0,
    {
        LogicalTopology::new()
    }
}

} // verus!
