//! Reachability over a list of directed edges.

use vstd::prelude::*;

verus! {

/// `v` is reached from `s` over at most `k` directed edges `(from, to)`.
pub open spec fn reach_within(edges: Seq<(u32, u32)>, s: u32, v: u32, k: nat) -> bool
    decreases k,
{
    if k == 0 {
        s == v
    } else {
        reach_within(edges, s, v, (k - 1) as nat) || exists|i: int|
            0 <= i < edges.len() && (#[trigger] edges[i]).1 == v && reach_within(
                edges,
                s,
                edges[i].0,
                (k - 1) as nat,
            )
    }
}

/// `v` is reached from `s` over the directed edges.
pub open spec fn reaches(edges: Seq<(u32, u32)>, s: u32, v: u32) -> bool {
    exists|k: nat| #[trigger] reach_within(edges, s, v, k)
}

/// Allowing more edges keeps a node reached.
pub proof fn lemma_reach_mono(edges: Seq<(u32, u32)>, s: u32, v: u32, k: nat, m: nat)
    requires
        reach_within(edges, s, v, k),
        k <= m,
    ensures
        reach_within(edges, s, v, m),
    decreases m - k,
{
    if k < m {
        assert(reach_within(edges, s, v, k + 1));
        lemma_reach_mono(edges, s, v, k + 1, m);
    }
}

/// A path of at most `k` edges from `s` to another node starts with an edge
/// out of `s`, after which at most `k - 1` edges remain.
pub proof fn lemma_reach_first_edge(edges: Seq<(u32, u32)>, s: u32, v: u32, k: nat) -> (i: int)
    requires
        reach_within(edges, s, v, k),
        s != v,
    ensures
        k >= 1,
        0 <= i < edges.len(),
        edges[i].0 == s,
        reach_within(edges, edges[i].1, v, (k - 1) as nat),
    decreases k,
{
    if reach_within(edges, s, v, (k - 1) as nat) {
        let i = lemma_reach_first_edge(edges, s, v, (k - 1) as nat);
        lemma_reach_mono(edges, edges[i].1, v, (k - 2) as nat, (k - 1) as nat);
        i
    } else {
        let j = choose|j: int|
            0 <= j < edges.len() && (#[trigger] edges[j]).1 == v && reach_within(
                edges,
                s,
                edges[j].0,
                (k - 1) as nat,
            );
        let x = edges[j].0;
        if s == x {
            lemma_reach_mono(edges, v, v, 0, (k - 1) as nat);
            j
        } else {
            let i = lemma_reach_first_edge(edges, s, x, (k - 1) as nat);
            assert(reach_within(edges, edges[i].1, x, (k - 2) as nat));
            assert(reach_within(edges, edges[i].1, v, (k - 1) as nat));
            i
        }
    }
}

/// An edge `(s, w)` followed by a path of at most `j` edges from `w` is a
/// path of at most `j + 1` edges from `s`.
pub proof fn lemma_reach_prepend(edges: Seq<(u32, u32)>, i: int, v: u32, j: nat)
    requires
        0 <= i < edges.len(),
        reach_within(edges, edges[i].1, v, j),
    ensures
        reach_within(edges, edges[i].0, v, j + 1),
    decreases j,
{
    let s = edges[i].0;
    let w = edges[i].1;
    if j == 0 {
        assert(reach_within(edges, s, s, 0));
        assert(edges[i].1 == v);
    } else if reach_within(edges, w, v, (j - 1) as nat) {
        lemma_reach_prepend(edges, i, v, (j - 1) as nat);
    } else {
        let e = choose|e: int|
            0 <= e < edges.len() && (#[trigger] edges[e]).1 == v && reach_within(
                edges,
                w,
                edges[e].0,
                (j - 1) as nat,
            );
        lemma_reach_prepend(edges, i, edges[e].0, (j - 1) as nat);
    }
}

} // verus!
