//! Physical topology: satellites and ground stations, and which of them can
//! reach one another. Distances and fidelity values are real numbers and are
//! kept by the caller; this module holds the integer structure.

use crate::error::SimError;
use vstd::prelude::*;

verus! {

#[derive(Debug, PartialEq, Eq, Clone, Copy, Structural)]
pub enum NodeType {
    /// Satellite node.
    SAT,
    /// On-ground station.
    OGS,
}

/// Resources of a physical node.
#[derive(Debug, PartialEq, Eq, Clone, Copy, Structural)]
pub struct NodeWeight {
    pub node_type: NodeType,
    /// Number of memory qubits.
    pub memory_qubits: u32,
    /// Number of detectors.
    pub detectors: u32,
    /// Number of transmitters, i.e., entangled photon sources.
    pub transmitters: u32,
    /// Rate at which the transmitters generate EPR pairs, in thousandths of
    /// a pair per second.
    pub capacity_mpps: u64,
}

impl NodeWeight {
    /// A satellite with one of each resource and a rate of one pair per
    /// second.
    pub fn default_sat() -> (r: Self)
        ensures
            r == (NodeWeight {
                node_type: NodeType::SAT,
                memory_qubits: 1,
                detectors: 1,
                transmitters: 1,
                capacity_mpps: 1000,
            }),
    {
        NodeWeight {
            node_type: NodeType::SAT,
            memory_qubits: 1,
            detectors: 1,
            transmitters: 1,
            capacity_mpps: 1000,
        }
    }

    /// A ground station with one memory qubit and one detector, and no
    /// transmitter.
    pub fn default_ogs() -> (r: Self)
        ensures
            r == (NodeWeight {
                node_type: NodeType::OGS,
                memory_qubits: 1,
                detectors: 1,
                transmitters: 0,
                capacity_mpps: 0,
            }),
    {
        NodeWeight {
            node_type: NodeType::OGS,
            memory_qubits: 1,
            detectors: 1,
            transmitters: 0,
            capacity_mpps: 0,
        }
    }

    pub open spec fn valid_spec(self) -> bool {
        (self.memory_qubits > 0) == (self.detectors > 0)
    }

    /// A node has memory qubits exactly when it has detectors.
    pub fn valid(&self) -> (r: bool)
        ensures
            r == self.valid_spec(),
    {
        (self.memory_qubits > 0) == (self.detectors > 0)
    }
}

/// The one-time fidelity class of pairs made by a transmitter for two
/// receivers: one hop (the transmitter is a receiver) or two, by the types
/// of the receivers.
#[derive(Debug, PartialEq, Eq, Clone, Copy, Structural)]
pub enum FidelityClass {
    /// One hop, orbit to orbit.
    O,
    /// One hop, orbit to ground.
    G,
    /// Two hops, both receivers in orbit.
    OO,
    /// Two hops, one receiver in orbit and one on ground.
    OG,
    /// Two hops, both receivers on ground.
    GG,
}

/// Size of a grid of orbits.
#[derive(Debug, PartialEq, Eq, Clone, Copy, Structural)]
pub struct GridSize {
    pub num_orbits: u32,
    pub orbit_length: u32,
}

/// True if the undirected edge set holds `{u, v}`.
pub open spec fn has_edge_spec(edges: Seq<(u32, u32)>, u: u32, v: u32) -> bool {
    exists|i: int|
        0 <= i < edges.len() && (#[trigger] edges[i] == (u, v) || edges[i] == (v, u))
}

/// Satellites `a` and `b` of a torus with orbits of length `l` are
/// neighbours: next to each other on an orbit, or at the same place on
/// adjacent orbits.
pub open spec fn sat_adjacent(l: int, a: int, b: int) -> bool {
    let (ia, ja, ib, jb) = (a / l, a % l, b / l, b % l);
    a != b && ((ia == ib && (jb == (ja + 1) % l || ja == (jb + 1) % l)) || (ja == jb && (
    ib == ia + 1 || ia == ib + 1)))
}

/// Ground station `k` (counted from zero among stations) of a grid with `n`
/// orbits of length `l` sees satellite `s`: the two satellites above it on
/// the orbit before its band, and the two on the orbit after it.
pub open spec fn ogs_sees(n: int, l: int, k: int, s: int) -> bool {
    let (i, j) = (k / l, k % l);
    let (si, sj) = (s / l, s % l);
    (sj == j || sj == (j + l - 1) % l) && ((i > 0 && si == i - 1) || (i < n && si == i))
}

/// Nodes `u < v` of the grid are linked.
pub open spec fn grid_adjacent(n: int, l: int, u: int, v: int) -> bool {
    let s = n * l;
    if v < s {
        sat_adjacent(l, u, v)
    } else if u < s {
        ogs_sees(n, l, v - s, u)
    } else {
        false
    }
}

/// Total number of nodes of a grid.
pub open spec fn grid_nodes(g: GridSize) -> int {
    (2 * g.num_orbits + 1) * g.orbit_length
}

/// The grid can be built.
pub open spec fn grid_ok(g: GridSize, sat: NodeWeight, ogs: NodeWeight) -> bool {
    &&& g.num_orbits > 0
    &&& g.orbit_length > 0
    &&& grid_nodes(g) <= u32::MAX
    &&& sat.valid_spec()
    &&& ogs.valid_spec()
    &&& sat.node_type == NodeType::SAT
    &&& ogs.node_type == NodeType::OGS
}

/// Fidelity class of pairs made by `tx` for `u` and `v`, None where `tx`
/// cannot make such pairs.
pub open spec fn fidelity_class_spec(
    nodes: Seq<NodeWeight>,
    edges: Seq<(u32, u32)>,
    tx: u32,
    u: u32,
    v: u32,
) -> Option<FidelityClass> {
    if !(tx < nodes.len() && u < nodes.len() && v < nodes.len()) {
        None
    } else if nodes[tx as int].transmitters == 0 || u == v || nodes[tx as int].node_type
        != NodeType::SAT {
        None
    } else if tx == u || tx == v {
        let other = if tx == u {
            v
        } else {
            u
        };
        if !has_edge_spec(edges, tx, other) {
            None
        } else if nodes[other as int].node_type == NodeType::SAT {
            Some(FidelityClass::O)
        } else {
            Some(FidelityClass::G)
        }
    } else if !has_edge_spec(edges, tx, u) || !has_edge_spec(edges, tx, v) {
        None
    } else {
        match (nodes[u as int].node_type, nodes[v as int].node_type) {
            (NodeType::SAT, NodeType::SAT) => Some(FidelityClass::OO),
            (NodeType::OGS, NodeType::OGS) => Some(FidelityClass::GG),
            _ => Some(FidelityClass::OG),
        }
    }
}

/// Undirected physical graph. Node `i` has weight `nodes[i]`; each edge is
/// a pair of node indices.
pub struct PhysicalTopology {
    nodes: Vec<NodeWeight>,
    edges: Vec<(u32, u32)>,
}

impl PhysicalTopology {
    pub closed spec fn nodes_spec(&self) -> Seq<NodeWeight> {
        self.nodes@
    }

    pub closed spec fn edges_spec(&self) -> Seq<(u32, u32)> {
        self.edges@
    }

    /// Node indices fit in `u32` and every edge joins two distinct nodes.
    pub open spec fn wf(&self) -> bool {
        &&& self.nodes_spec().len() <= u32::MAX
        &&& forall|i: int|
            0 <= i < self.edges_spec().len() ==> (#[trigger] self.edges_spec()[i]).0
                < self.nodes_spec().len() && self.edges_spec()[i].1 < self.nodes_spec().len()
                && self.edges_spec()[i].0 != self.edges_spec()[i].1
    }

    /// A topology from node weights and undirected edges. Fails if an edge
    /// names a missing node or joins a node to itself.
    pub fn from_edges(nodes: Vec<NodeWeight>, edges: Vec<(u32, u32)>) -> (r: Result<Self, SimError>)
        ensures
            r is Ok <==> nodes@.len() <= u32::MAX && forall|i: int|
                0 <= i < edges@.len() ==> (#[trigger] edges@[i]).0 < nodes@.len() && edges@[i].1
                    < nodes@.len() && edges@[i].0 != edges@[i].1,
            r matches Ok(t) ==> t.wf() && t.nodes_spec() == nodes@ && t.edges_spec() == edges@,
            r matches Err(e) ==> e == SimError::ConfigInvalid,
    {
        if nodes.len() > 0xFFFF_FFFF {
            return Err(SimError::ConfigInvalid);
        }
        let mut i: usize = 0;
        while i < edges.len()
            invariant
                i <= edges@.len(),
                forall|k: int|
                    0 <= k < i ==> (#[trigger] edges@[k]).0 < nodes@.len() && edges@[k].1
                        < nodes@.len() && edges@[k].0 != edges@[k].1,
            decreases edges@.len() - i,
        {
            let (a, b) = edges[i];
            if a as usize >= nodes.len() || b as usize >= nodes.len() || a == b {
                return Err(SimError::ConfigInvalid);
            }
            i = i + 1;
        }
        Ok(PhysicalTopology { nodes, edges })
    }

    /// Node weights, by index.
    pub fn nodes(&self) -> (r: &Vec<NodeWeight>)
        ensures
            r@ == self.nodes_spec(),
    {
        &self.nodes
    }

    /// Undirected edges.
    pub fn edges(&self) -> (r: &Vec<(u32, u32)>)
        ensures
            r@ == self.edges_spec(),
    {
        &self.edges
    }

    /// Number of nodes.
    pub fn node_count(&self) -> (r: usize)
        ensures
            r == self.nodes_spec().len(),
    {
        self.nodes.len()
    }

    /// True if `u` and `v` are linked.
    pub fn has_edge(&self, u: u32, v: u32) -> (r: bool)
        ensures
            r == has_edge_spec(self.edges_spec(), u, v),
    {
        let mut i: usize = 0;
        while i < self.edges.len()
            invariant
                i <= self.edges@.len(),
                forall|k: int|
                    0 <= k < i ==> !(#[trigger] self.edges@[k] == (u, v) || self.edges@[k] == (v, u)),
            decreases self.edges@.len() - i,
        {
            let (a, b) = self.edges[i];
            if (a == u && b == v) || (a == v && b == u) {
                return true;
            }
            i = i + 1;
        }
        false
    }

    /// Neighbours of `u`, in the order of the edges.
    pub fn neighbors(&self, u: u32) -> (r: Vec<u32>)
        ensures
            forall|v: u32| r@.contains(v) <==> has_edge_spec(self.edges_spec(), u, v),
    {
        let mut r: Vec<u32> = Vec::new();
        let mut i: usize = 0;
        while i < self.edges.len()
            invariant
                i <= self.edges@.len(),
                forall|v: u32|
                    r@.contains(v) <==> exists|k: int|
                        0 <= k < i && (#[trigger] self.edges@[k] == (u, v) || self.edges@[k] == (
                        v,
                        u,
                    )),
            decreases self.edges@.len() - i,
        {
            let (a, b) = self.edges[i];
            let ghost r0 = r@;
            if a == u {
                r.push(b);
            } else if b == u {
                r.push(a);
            }
            proof {
                assert forall|v: u32|
                    r@.contains(v) <==> exists|k: int|
                        0 <= k < i + 1 && (#[trigger] self.edges@[k] == (u, v) || self.edges@[k] == (
                        v,
                        u,
                    )) by {
                    if r@.contains(v) && !r0.contains(v) {
                        let x = choose|x: int| 0 <= x < r@.len() && r@[x] == v;
                        if x < r0.len() {
                            assert(r0[x] == v);
                        }
                        assert(self.edges@[i as int] == (u, v) || self.edges@[i as int] == (v, u));
                    }
                    if self.edges@[i as int] == (u, v) || self.edges@[i as int] == (v, u) {
                        assert(r@[r@.len() - 1] == v);
                    }
                    if r0.contains(v) {
                        let x = choose|x: int| 0 <= x < r0.len() && r0[x] == v;
                        assert(r@[x] == v);
                    }
                }
            }
            i = i + 1;
        }
        r
    }
}


/// Lexicographic order on pairs of node indices.
pub open spec fn pair_before(a: int, b: int, u: int, v: int) -> bool {
    a < u || (a == u && b < v)
}

fn sat_adjacent_exec(l: u64, a: u64, b: u64) -> (r: bool)
    requires
        0 < l <= u32::MAX,
        a <= u32::MAX,
        b <= u32::MAX,
    ensures
        r == sat_adjacent(l as int, a as int, b as int),
{
    let ia = a / l;
    let ja = a % l;
    let ib = b / l;
    let jb = b % l;
    a != b && ((ia == ib && (jb == (ja + 1) % l || ja == (jb + 1) % l)) || (ja == jb && (ib == ia
        + 1 || ia == ib + 1)))
}

fn ogs_sees_exec(n: u64, l: u64, k: u64, s: u64) -> (r: bool)
    requires
        0 < l <= u32::MAX,
        n <= u32::MAX,
        k <= u32::MAX,
        s <= u32::MAX,
    ensures
        r == ogs_sees(n as int, l as int, k as int, s as int),
{
    let i = k / l;
    let j = k % l;
    let si = s / l;
    let sj = s % l;
    (sj == j || sj == (j + l - 1) % l) && ((i > 0 && si == i - 1) || (i < n && si == i))
}

impl PhysicalTopology {
    /// Build a grid of `num_orbits` parallel orbits of `orbit_length`
    /// satellites each, wrapping around along the orbits, with a band of
    /// ground stations before, between and after the orbits. Satellites
    /// come first, orbit by orbit, then the stations, band by band. Each
    /// station sees the two nearest satellites on each adjacent orbit.
    pub fn from_grid_static(grid: GridSize, sat_weight: NodeWeight, ogs_weight: NodeWeight) -> (r:
        Result<Self, SimError>)
        ensures
            r is Ok <==> grid_ok(grid, sat_weight, ogs_weight),
            r matches Err(e) ==> e == SimError::ConfigInvalid,
            r matches Ok(t) ==> {
                let s = grid.num_orbits * grid.orbit_length;
                &&& t.wf()
                &&& t.nodes_spec().len() == grid_nodes(grid)
                &&& forall|i: int|
                    0 <= i < t.nodes_spec().len() ==> #[trigger] t.nodes_spec()[i] == if i < s {
                        sat_weight
                    } else {
                        ogs_weight
                    }
                &&& forall|k: int|
                    0 <= k < t.edges_spec().len() ==> (#[trigger] t.edges_spec()[k]).0
                        < t.edges_spec()[k].1
                &&& forall|u: u32, v: u32|
                    u < v < grid_nodes(grid) ==> (#[trigger] has_edge_spec(t.edges_spec(), u, v)
                        <==> grid_adjacent(
                        grid.num_orbits as int,
                        grid.orbit_length as int,
                        u as int,
                        v as int,
                    ))
            },
    {
        if grid.num_orbits == 0 || grid.orbit_length == 0 {
            return Err(SimError::ConfigInvalid);
        }
        if grid.num_orbits > 0x7FFF_FFFF {
            assert((2 * grid.num_orbits + 1) * grid.orbit_length >= 2 * grid.num_orbits + 1)
                by (nonlinear_arith)
                requires
                    grid.orbit_length >= 1,
            ;
            return Err(SimError::ConfigInvalid);
        }
        let n = grid.num_orbits as u64;
        let l = grid.orbit_length as u64;
        assert((2 * n + 1) * l <= 0xFFFF_FFFFu64 * 0xFFFF_FFFFu64) by (nonlinear_arith)
            requires
                2 * n + 1 <= 0xFFFF_FFFFu64,
                l <= 0xFFFF_FFFFu64,
        ;
        let total = (2 * n + 1) * l;
        if total > 0xFFFF_FFFF {
            return Err(SimError::ConfigInvalid);
        }
        if !sat_weight.valid() || !ogs_weight.valid() || sat_weight.node_type != NodeType::SAT
            || ogs_weight.node_type != NodeType::OGS {
            return Err(SimError::ConfigInvalid);
        }
        assert(n * l <= total) by (nonlinear_arith)
            requires
                total == (2 * n + 1) * l,
        ;
        let num_sat = n * l;
        let mut nodes: Vec<NodeWeight> = Vec::new();
        let mut i: u64 = 0;
        while i < total
            invariant
                i <= total,
                nodes@.len() == i,
                forall|k: int| 0 <= k < i ==> #[trigger] nodes@[k] == if k < num_sat {
                    sat_weight
                } else {
                    ogs_weight
                },
            decreases total - i,
        {
            if i < num_sat {
                nodes.push(sat_weight);
            } else {
                nodes.push(ogs_weight);
            }
            i = i + 1;
        }
        let mut edges: Vec<(u32, u32)> = Vec::new();
        let mut u: u64 = 0;
        while u < total
            invariant
                u <= total <= u32::MAX,
                num_sat == n * l,
                num_sat <= total,
                0 < l <= u32::MAX,
                n <= u32::MAX,
                forall|k: int|
                    0 <= k < edges@.len() ==> (#[trigger] edges@[k]).0 < edges@[k].1 < total
                        && edges@[k].0 < u && grid_adjacent(
                        n as int,
                        l as int,
                        edges@[k].0 as int,
                        edges@[k].1 as int,
                    ),
                forall|a: u32, b: u32|
                    a < b < total && a < u && grid_adjacent(n as int, l as int, a as int, b as int)
                        ==> #[trigger] edges@.contains((a, b)),
            decreases total - u,
        {
            let mut v: u64 = u + 1;
            while v < total
                invariant
                    u < total <= u32::MAX,
                    u + 1 <= v <= total,
                    num_sat == n * l,
                    num_sat <= total,
                    0 < l <= u32::MAX,
                    n <= u32::MAX,
                    forall|k: int|
                        0 <= k < edges@.len() ==> (#[trigger] edges@[k]).0 < edges@[k].1 < total
                            && pair_before(edges@[k].0 as int, edges@[k].1 as int, u as int, v as int)
                            && grid_adjacent(
                            n as int,
                            l as int,
                            edges@[k].0 as int,
                            edges@[k].1 as int,
                        ),
                    forall|a: u32, b: u32|
                        a < b < total && pair_before(a as int, b as int, u as int, v as int)
                            && grid_adjacent(n as int, l as int, a as int, b as int)
                            ==> #[trigger] edges@.contains((a, b)),
                decreases total - v,
            {
                let adjacent = if v < num_sat {
                    sat_adjacent_exec(l, u, v)
                } else if u < num_sat {
                    ogs_sees_exec(n, l, v - num_sat, u)
                } else {
                    false
                };
                let ghost e0 = edges@;
                if adjacent {
                    edges.push((u as u32, v as u32));
                }
                proof {
                    assert forall|a: u32, b: u32|
                        a < b < total && pair_before(a as int, b as int, u as int, v + 1)
                            && grid_adjacent(n as int, l as int, a as int, b as int)
                            implies #[trigger] edges@.contains((a, b)) by {
                        if a == u && b == v {
                            assert(edges@[edges@.len() - 1] == (a, b));
                        } else {
                            assert(e0.contains((a, b)));
                            let x = choose|x: int| 0 <= x < e0.len() && e0[x] == (a, b);
                            assert(edges@[x] == (a, b));
                        }
                    }
                }
                v = v + 1;
            }
            u = u + 1;
        }
        let t = PhysicalTopology { nodes, edges };
        proof {
            assert forall|a: u32, b: u32| a < b < total implies (#[trigger] has_edge_spec(
                t.edges_spec(),
                a,
                b,
            ) <==> grid_adjacent(n as int, l as int, a as int, b as int)) by {
                if grid_adjacent(n as int, l as int, a as int, b as int) {
                    assert(t.edges@.contains((a, b)));
                    let x = choose|x: int| 0 <= x < t.edges@.len() && t.edges@[x] == (a, b);
                    assert(t.edges@[x] == (a, b));
                }
                if has_edge_spec(t.edges_spec(), a, b) {
                    let x = choose|x: int|
                        0 <= x < t.edges@.len() && (#[trigger] t.edges@[x] == (a, b) || t.edges@[x]
                            == (b, a));
                    assert(t.edges@[x] == (a, b));
                }
            }
        }
        Ok(t)
    }

    /// The class of the fidelity of pairs made by transmitter `tx` for
    /// receivers `u` and `v`. Fails if a node is missing, `tx` is not a
    /// satellite with a transmitter, `u == v`, or `tx` is not linked to a
    /// receiver other than itself.
    pub fn fidelity(&self, tx: u32, u: u32, v: u32) -> (r: Result<FidelityClass, SimError>)
        ensures
            match fidelity_class_spec(self.nodes_spec(), self.edges_spec(), tx, u, v) {
                Some(c) => r == Ok::<FidelityClass, SimError>(c),
                None => r == Err::<FidelityClass, SimError>(SimError::PathUnreachable),
            },
    {
        let len = self.nodes.len();
        if !((tx as usize) < len) || !((u as usize) < len) || !((v as usize) < len) {
            return Err(SimError::PathUnreachable);
        }
        let t = self.nodes[tx as usize];
        if t.transmitters == 0 || u == v || t.node_type != NodeType::SAT {
            return Err(SimError::PathUnreachable);
        }
        if tx == u || tx == v {
            let other = if tx == u {
                v
            } else {
                u
            };
            if !self.has_edge(tx, other) {
                return Err(SimError::PathUnreachable);
            }
            if self.nodes[other as usize].node_type == NodeType::SAT {
                Ok(FidelityClass::O)
            } else {
                Ok(FidelityClass::G)
            }
        } else {
            if !self.has_edge(tx, u) || !self.has_edge(tx, v) {
                return Err(SimError::PathUnreachable);
            }
            match (self.nodes[u as usize].node_type, self.nodes[v as usize].node_type) {
                (NodeType::SAT, NodeType::SAT) => Ok(FidelityClass::OO),
                (NodeType::OGS, NodeType::OGS) => Ok(FidelityClass::GG),
                _ => Ok(FidelityClass::OG),
            }
        }
    }

    /// Indices of the nodes of a given type, in increasing order.
    pub fn node_indices(&self, node_type: NodeType) -> (r: Vec<u32>)
        requires
            self.wf(),
        ensures
            forall|k: int|
                0 <= k < r@.len() ==> (#[trigger] r@[k]) < self.nodes_spec().len()
                    && self.nodes_spec()[r@[k] as int].node_type == node_type,
            forall|k1: int, k2: int| 0 <= k1 < k2 < r@.len() ==> r@[k1] < r@[k2],
            forall|i: u32|
                i < self.nodes_spec().len() && self.nodes_spec()[i as int].node_type == node_type
                    ==> #[trigger] r@.contains(i),
    {
        let mut r: Vec<u32> = Vec::new();
        let mut i: usize = 0;
        while i < self.nodes.len()
            invariant
                i <= self.nodes@.len() <= u32::MAX,
                forall|k: int|
                    0 <= k < r@.len() ==> (#[trigger] r@[k]) < i && self.nodes@[r@[k] as int].node_type
                        == node_type,
                forall|k1: int, k2: int| 0 <= k1 < k2 < r@.len() ==> r@[k1] < r@[k2],
                forall|j: u32|
                    j < i && self.nodes@[j as int].node_type == node_type ==> #[trigger] r@.contains(j),
            decreases self.nodes@.len() - i,
        {
            let ghost r0 = r@;
            if self.nodes[i].node_type == node_type {
                r.push(i as u32);
            }
            proof {
                assert forall|j: u32|
                    j < i + 1 && self.nodes@[j as int].node_type == node_type implies #[trigger] r@.contains(j) by {
                    if j == i {
                        assert(r@[r@.len() - 1] == j);
                    } else {
                        assert(r0.contains(j));
                        let x = choose|x: int| 0 <= x < r0.len() && r0[x] == j;
                        assert(r@[x] == j);
                    }
                }
            }
            i = i + 1;
        }
        r
    }

    /// Indices of the satellites, in increasing order.
    pub fn sat_indices(&self) -> (r: Vec<u32>)
        requires
            self.wf(),
        ensures
            forall|k: int|
                0 <= k < r@.len() ==> (#[trigger] r@[k]) < self.nodes_spec().len()
                    && self.nodes_spec()[r@[k] as int].node_type == NodeType::SAT,
            forall|k1: int, k2: int| 0 <= k1 < k2 < r@.len() ==> r@[k1] < r@[k2],
            forall|i: u32|
                i < self.nodes_spec().len() && self.nodes_spec()[i as int].node_type == NodeType::SAT
                    ==> #[trigger] r@.contains(i),
    {
        self.node_indices(NodeType::SAT)
    }

    /// Indices of the ground stations, in increasing order.
    pub fn ogs_indices(&self) -> (r: Vec<u32>)
        requires
            self.wf(),
        ensures
            forall|k: int|
                0 <= k < r@.len() ==> (#[trigger] r@[k]) < self.nodes_spec().len()
                    && self.nodes_spec()[r@[k] as int].node_type == NodeType::OGS,
            forall|k1: int, k2: int| 0 <= k1 < k2 < r@.len() ==> r@[k1] < r@[k2],
            forall|i: u32|
                i < self.nodes_spec().len() && self.nodes_spec()[i as int].node_type == NodeType::OGS
                    ==> #[trigger] r@.contains(i),
    {
        self.node_indices(NodeType::OGS)
    }
}

} // verus!
