//! Register of the EPR pairs alive in the network.

use vstd::prelude::*;

verus! {

broadcast use vstd::std_specs::hash::group_hash_axioms;

/// An EPR pair. An end node is None once it has consumed its photon.
/// The fidelity at time `updated` is kept as the bit pattern of an `f64`:
/// the register only carries it.
#[derive(Debug, PartialEq, Eq, Clone, Copy, Structural)]
pub struct EprPair {
    pub alice_id: Option<u32>,
    pub bob_id: Option<u32>,
    pub updated: u64,
    pub fidelity_bits: u64,
}

/// The pair after `node_id` consumed its end, or None if `node_id` holds
/// no end of it.
pub open spec fn consumed_by(p: EprPair, node_id: u32) -> Option<EprPair> {
    if p.alice_id == Some(node_id) {
        Some(EprPair { alice_id: None, ..p })
    } else if p.bob_id == Some(node_id) {
        Some(EprPair { bob_id: None, ..p })
    } else {
        None
    }
}

impl EprPair {
    /// A pair whose ends are held by `alice_id` and `bob_id`.
    pub fn new(alice_id: u32, bob_id: u32, updated: u64, fidelity_bits: u64) -> (r: Self)
        ensures
            r == (EprPair { alice_id: Some(alice_id), bob_id: Some(bob_id), updated, fidelity_bits }),
    {
        EprPair { alice_id: Some(alice_id), bob_id: Some(bob_id), updated, fidelity_bits }
    }

    /// Consume the end of the pair held by `node_id`. Return None if
    /// `node_id` holds no end, otherwise the update time, the fidelity and
    /// whether both ends are now consumed.
    pub fn consume(&mut self, node_id: u32) -> (r: Option<(u64, u64, bool)>)
        ensures
            match consumed_by(*old(self), node_id) {
                None => r is None && *final(self) == *old(self),
                Some(p) => *final(self) == p && r == Some(
                    (p.updated, p.fidelity_bits, p.alice_id is None && p.bob_id is None),
                ),
            },
    {
        if self.alice_id == Some(node_id) {
            self.alice_id = None;
        } else if self.bob_id == Some(node_id) {
            self.bob_id = None;
        } else {
            return None;
        }
        Some((self.updated, self.fidelity_bits, self.alice_id.is_none() && self.bob_id.is_none()))
    }
}

/// The pairs alive in the network, by identifier. Identifiers are given out
/// in increasing order, starting from zero.
pub struct EprRegister {
    epr_pairs: std::collections::HashMap<u64, EprPair>,
    last_epr_pair_id: u64,
}

impl View for EprRegister {
    type V = Map<u64, EprPair>;

    closed spec fn view(&self) -> Map<u64, EprPair> {
        self.epr_pairs@
    }
}

impl EprRegister {
    /// Identifier that the next new pair gets.
    pub closed spec fn next_id(&self) -> u64 {
        self.last_epr_pair_id
    }

    /// Every live identifier was given out before, and every live pair has
    /// at least one end not yet consumed.
    pub closed spec fn wf(&self) -> bool {
        &&& forall|id: u64| #[trigger] self.epr_pairs@.contains_key(id) ==> id < self.last_epr_pair_id
        &&& forall|id: u64| #[trigger]
            self.epr_pairs@.contains_key(id) ==> self.epr_pairs@[id].alice_id is Some
                || self.epr_pairs@[id].bob_id is Some
    }

    /// An empty register.
    pub fn new() -> (r: Self)
        ensures
            r.wf(),
            r@ == Map::<u64, EprPair>::empty(),
            r.next_id() == 0,
    {
        EprRegister { epr_pairs: std::collections::HashMap::new(), last_epr_pair_id: 0 }
    }

    /// The live pair `id`, if any.
    pub fn pair(&self, id: u64) -> (r: Option<EprPair>)
        ensures
            r == (if self@.contains_key(id) {
                Some(self@[id])
            } else {
                None
            }),
    {
        match self.epr_pairs.get(&id) {
            Some(p) => Some(*p),
            None => None,
        }
    }

    /// Identifier that the next new pair gets.
    pub fn next_id_exec(&self) -> (r: u64)
        ensures
            r == self.next_id(),
    {
        self.last_epr_pair_id
    }

    /// Number of live pairs.
    pub fn len(&self) -> (r: usize)
        ensures
            r == self@.len(),
    {
        self.epr_pairs.len()
    }

    /// Register a new pair with given end nodes, time and fidelity; return
    /// its identifier.
    pub fn new_epr_pair(&mut self, alice_id: u32, bob_id: u32, updated: u64, fidelity_bits: u64) -> (r: u64)
        requires
            old(self).wf(),
            old(self).next_id() < u64::MAX,
        ensures
            final(self).wf(),
            r == old(self).next_id(),
            final(self).next_id() == r + 1,
            !old(self)@.contains_key(r),
            final(self)@ == old(self)@.insert(
                r,
                EprPair { alice_id: Some(alice_id), bob_id: Some(bob_id), updated, fidelity_bits },
            ),
    {
        let epr_pair_id = self.last_epr_pair_id;
        let _ = self.epr_pairs.insert(epr_pair_id, EprPair::new(alice_id, bob_id, updated, fidelity_bits));
        self.last_epr_pair_id = epr_pair_id + 1;
        epr_pair_id
    }

    /// Consume the end of pair `epr_pair_id` held by `node_id`, and remove
    /// the pair once both ends are consumed. Return its update time and
    /// fidelity, or None if no such pair has an end at `node_id`.
    pub fn consume(&mut self, epr_pair_id: u64, node_id: u32) -> (r: Option<(u64, u64)>)
        requires
            old(self).wf(),
        ensures
            final(self).wf(),
            final(self).next_id() == old(self).next_id(),
            !old(self)@.contains_key(epr_pair_id) ==> r is None && final(self)@ == old(self)@,
            old(self)@.contains_key(epr_pair_id) ==> match consumed_by(old(self)@[epr_pair_id], node_id) {
                None => r is None && final(self)@ == old(self)@,
                Some(p) => r == Some((p.updated, p.fidelity_bits)) && if p.alice_id is None
                    && p.bob_id is None {
                    final(self)@ == old(self)@.remove(epr_pair_id)
                } else {
                    final(self)@ == old(self)@.insert(epr_pair_id, p)
                },
            },
    {
        let found = match self.epr_pairs.get(&epr_pair_id) {
            Some(p) => Some(*p),
            None => None,
        };
        match found {
            None => None,
            Some(pair) => {
                let mut pair = pair;
                match pair.consume(node_id) {
                    None => None,
                    Some((updated, fidelity_bits, remove)) => {
                        if remove {
                            let _ = self.epr_pairs.remove(&epr_pair_id);
                        } else {
                            let _ = self.epr_pairs.insert(epr_pair_id, pair);
                        }
                        Some((updated, fidelity_bits))
                    },
                }
            },
        }
    }
}

impl Default for EprRegister {
    fn default() -> (r: Self)
        ensures
            r.wf(),
            r@ == Map::<u64, EprPair>::empty(),
            r.next_id() == 0,
    {
        EprRegister::new()
    }
}

} // verus!
