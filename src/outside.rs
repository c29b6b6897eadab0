//! Calls into outside crates: the random-number generator's type, the
//! shuffle of a vector and shortest hop counts on a directed graph.

use crate::reach::{reach_within, reaches};
use vstd::prelude::*;

verus! {

/// The seeded generator of `rand`, carried through unopened.
#[verifier::external_type_specification]
#[verifier::external_body]
pub struct ExStdRng(rand::rngs::StdRng);

/// `row[v]` is the least number of directed edges from `source` to `v`,
/// None where no path leads there, for every node `v < num_nodes`.
pub open spec fn hop_row(edges: Seq<(u32, u32)>, source: u32, num_nodes: u32, row: Seq<Option<u64>>) -> bool {
    &&& row.len() == num_nodes
    &&& forall|v: u32|
        v < num_nodes ==> match #[trigger] row[v as int] {
            Some(d) => reach_within(edges, source, v, d as nat) && (d == 0 || !reach_within(
                edges,
                source,
                v,
                (d - 1) as nat,
            )),
            None => !reaches(edges, source, v),
        }
}

/// Relies on `shuffle::irs::Irs::shuffle`: each of its rounds places a
/// clone of every item of the vector at a new position, so the vector keeps
/// the same items, in some order, whether or not the shuffle reports
/// success. The items are `Copy`, so a clone is the item itself.
#[verifier::external_body]
pub(crate) fn shuffle_items<T: Copy + Default>(items: &mut Vec<T>, rng: &mut rand::rngs::StdRng)
    ensures
        final(items)@.to_multiset() == old(items)@.to_multiset(),
{
    let mut irs = shuffle::irs::Irs::default();
    let _ = shuffle::shuffler::Shuffler::shuffle(&mut irs, items, rng);
}

/// Relies on `petgraph::algo::dijkstra` with every edge costing one: the
/// score it reports for a node is the least number of edges on a path from
/// `source`, and a node that no path reaches gets no score.
#[verifier::external_body]
pub(crate) fn hop_distances(num_nodes: u32, edges: &Vec<(u32, u32)>, source: u32) -> (r: Vec<Option<u64>>)
    ensures
        hop_row(edges@, source, num_nodes, r@),
{
    let mut graph = petgraph::graphmap::DiGraphMap::<u32, ()>::from_edges(edges.iter().copied());
    graph.add_node(source);
    let scores = petgraph::algo::dijkstra(&graph, source, None, |_| 1u64);
    (0..num_nodes).map(|v| scores.get(&v).copied()).collect()
}

/// Relies on `rand::SeedableRng::seed_from_u64` for `StdRng`: a generator
/// determined by the seed.
#[verifier::external_body]
pub(crate) fn seeded_rng(seed: u64) -> rand::rngs::StdRng {
    <rand::rngs::StdRng as rand::SeedableRng>::seed_from_u64(seed)
}

/// Relies on `rand_distr::Uniform::new(0, n)` and its `sample`: a draw in
/// `0..n`. `Uniform::new` panics when `n == 0`, which `requires` excludes.
#[verifier::external_body]
pub(crate) fn draw_below(n: usize, rng: &mut rand::rngs::StdRng) -> (r: usize)
    requires
        n > 0,
    ensures
        r < n,
{
    rand_distr::Distribution::sample(&rand_distr::Uniform::new(0, n), rng)
}

} // verus!
