//! Quantum network interface cards: fixed-size arrays of memory cells, each
//! holding one photon of an EPR pair.

use vstd::prelude::*;

verus! {

/// Creation time and NIC-local identifier of the pair stored in a cell.
#[derive(Debug, PartialEq, Eq, Clone, Copy, Structural)]
pub struct MemoryCellData {
    pub created: u64,
    pub local_pair_id: u64,
}

/// State of one quantum memory cell.
#[derive(Debug, PartialEq, Eq, Clone, Copy, Structural)]
pub enum MemoryCell {
    /// The memory cell is empty.
    Empty,
    /// The memory cell contains half of a valid EPR pair; it can be
    /// overwritten.
    Valid(MemoryCellData),
    /// The memory cell is locked by a pending request and cannot be
    /// overwritten.
    Used(MemoryCellData),
}

impl MemoryCell {
    /// The payload of a non-empty cell.
    pub open spec fn data_spec(self) -> Option<MemoryCellData> {
        match self {
            MemoryCell::Empty => None,
            MemoryCell::Valid(d) => Some(d),
            MemoryCell::Used(d) => Some(d),
        }
    }

    /// True if the cell is non-empty and stores the pair `id`.
    pub open spec fn holds(self, id: u64) -> bool {
        match self.data_spec() {
            Some(d) => d.local_pair_id == id,
            None => false,
        }
    }

    /// Return a new valid memory cell.
    pub fn new(created: u64, identifier: u64) -> (r: Self)
        ensures
            r == MemoryCell::Valid(MemoryCellData { created, local_pair_id: identifier }),
    {
        MemoryCell::Valid(MemoryCellData { created, local_pair_id: identifier })
    }

    /// Return the memory cell data, unless it is empty, and make the cell
    /// empty.
    pub fn take_data(&mut self) -> (r: Option<MemoryCellData>)
        ensures
            r == old(self).data_spec(),
            *final(self) == MemoryCell::Empty,
    {
        let r = self.data();
        *self = MemoryCell::Empty;
        r
    }

    /// Return the memory cell data, unless it is empty.
    pub fn data(&self) -> (r: Option<MemoryCellData>)
        ensures
            r == self.data_spec(),
    {
        match self {
            MemoryCell::Empty => None,
            MemoryCell::Valid(data) => Some(*data),
            MemoryCell::Used(data) => Some(*data),
        }
    }

    /// Return the local pair identifier, if the cell is non-empty.
    pub fn local_pair_id(&self) -> (r: Option<u64>)
        ensures
            r == match self.data_spec() {
                Some(d) => Some(d.local_pair_id),
                None => None,
            },
    {
        match self {
            MemoryCell::Empty => None,
            MemoryCell::Valid(data) => Some(data.local_pair_id),
            MemoryCell::Used(data) => Some(data.local_pair_id),
        }
    }

    /// Return true if the cell is empty.
    pub fn is_empty(&self) -> (r: bool)
        ensures
            r <==> *self is Empty,
    {
        matches!(self, MemoryCell::Empty)
    }

    /// Return true if the cell is valid.
    pub fn is_valid(&self) -> (r: bool)
        ensures
            r <==> *self is Valid,
    {
        matches!(self, MemoryCell::Valid(_))
    }

    /// Return true if the cell is used.
    pub fn is_used(&self) -> (r: bool)
        ensures
            r <==> *self is Used,
    {
        matches!(self, MemoryCell::Used(_))
    }

    /// Mark the cell as used if it was valid, otherwise do nothing.
    pub fn used(&mut self)
        ensures
            *final(self) == match *old(self) {
                MemoryCell::Valid(d) => MemoryCell::Used(d),
                other => other,
            },
    {
        if let MemoryCell::Valid(data) = self {
            *self = MemoryCell::Used(*data);
        }
    }

    /// Order of cells: an empty cell comes first, non-empty cells are
    /// compared by creation time.
    pub open spec fn cmp_spec(self, other: Self) -> Option<std::cmp::Ordering> {
        match (self.data_spec(), other.data_spec()) {
            (None, None) => Some(std::cmp::Ordering::Equal),
            (None, Some(_)) => Some(std::cmp::Ordering::Less),
            (Some(_), None) => Some(std::cmp::Ordering::Greater),
            (Some(a), Some(b)) => if a.created < b.created {
                Some(std::cmp::Ordering::Less)
            } else if a.created == b.created {
                Some(std::cmp::Ordering::Equal)
            } else {
                Some(std::cmp::Ordering::Greater)
            },
        }
    }
}

impl Default for MemoryCell {
    /// Return an empty memory cell.
    fn default() -> (r: Self)
        ensures
            r == MemoryCell::Empty,
    {
        MemoryCell::Empty
    }
}

impl PartialOrd for MemoryCell {
    fn partial_cmp(&self, other: &MemoryCell) -> (r: Option<std::cmp::Ordering>) {
        match (self.data(), other.data()) {
            (None, None) => Some(std::cmp::Ordering::Equal),
            (None, Some(_)) => Some(std::cmp::Ordering::Less),
            (Some(_), None) => Some(std::cmp::Ordering::Greater),
            (Some(a), Some(b)) => if a.created < b.created {
                Some(std::cmp::Ordering::Less)
            } else if a.created == b.created {
                Some(std::cmp::Ordering::Equal)
            } else {
                Some(std::cmp::Ordering::Greater)
            },
        }
    }
}

impl vstd::std_specs::cmp::PartialOrdSpecImpl for MemoryCell {
    open spec fn obeys_partial_cmp_spec() -> bool {
        true
    }

    open spec fn partial_cmp_spec(&self, other: &MemoryCell) -> Option<std::cmp::Ordering> {
        self.cmp_spec(*other)
    }
}

/// Role of a node on a logical link.
#[derive(Debug, PartialEq, Eq, Clone, Copy, Structural)]
pub enum Role {
    Master,
    Slave,
}

impl Role {
    /// One-letter label of the role.
    pub fn label(&self) -> (r: &'static str)
        ensures
            r@ == (if *self is Master { "M"@ } else { "S"@ }),
    {
        proof {
            reveal_strlit("M");
            reveal_strlit("S");
        }
        match self {
            Role::Master => "M",
            Role::Slave => "S",
        }
    }
}

/// True if `cells[i]` is the first non-empty cell storing pair `id`.
pub open spec fn first_holding(cells: Seq<MemoryCell>, id: u64, i: int) -> bool {
    &&& 0 <= i < cells.len()
    &&& cells[i].holds(id)
    &&& forall|j: int| 0 <= j < i ==> !(#[trigger] cells[j]).holds(id)
}

/// True if no cell stores pair `id`.
pub open spec fn holds_none(cells: Seq<MemoryCell>, id: u64) -> bool {
    forall|j: int| 0 <= j < cells.len() ==> !(#[trigger] cells[j]).holds(id)
}

/// Creation time of a non-empty cell.
pub open spec fn created_of(c: MemoryCell) -> u64 {
    match c.data_spec() {
        Some(d) => d.created,
        None => 0,
    }
}

/// True if `cells[i]` is the first empty cell.
pub open spec fn first_empty(cells: Seq<MemoryCell>, i: int) -> bool {
    &&& 0 <= i < cells.len()
    &&& cells[i] is Empty
    &&& forall|j: int| 0 <= j < i ==> !(#[trigger] cells[j] is Empty)
}

/// True if some cell is empty.
pub open spec fn has_empty(cells: Seq<MemoryCell>) -> bool {
    exists|j: int| 0 <= j < cells.len() && #[trigger] cells[j] is Empty
}

/// True if some cell is valid.
pub open spec fn has_valid(cells: Seq<MemoryCell>) -> bool {
    exists|j: int| 0 <= j < cells.len() && #[trigger] cells[j] is Valid
}

/// True if `cells[i]` is the oldest valid cell, the one with the lowest
/// index among equally old ones.
pub open spec fn oldest_valid_at(cells: Seq<MemoryCell>, i: int) -> bool {
    &&& 0 <= i < cells.len()
    &&& cells[i] is Valid
    &&& forall|j: int|
        0 <= j < cells.len() && #[trigger] cells[j] is Valid ==> created_of(cells[i])
            <= created_of(cells[j])
    &&& forall|j: int|
        0 <= j < i && #[trigger] cells[j] is Valid ==> created_of(cells[i]) < created_of(
            cells[j],
        )
}

/// True if `cells[i]` is the newest valid cell, the one with the highest
/// index among equally new ones.
pub open spec fn newest_valid_at(cells: Seq<MemoryCell>, i: int) -> bool {
    &&& 0 <= i < cells.len()
    &&& cells[i] is Valid
    &&& forall|j: int|
        0 <= j < cells.len() && #[trigger] cells[j] is Valid ==> created_of(cells[j])
            <= created_of(cells[i])
    &&& forall|j: int|
        i < j < cells.len() && #[trigger] cells[j] is Valid ==> created_of(cells[j])
            < created_of(cells[i])
}

/// Number of non-empty cells.
pub open spec fn count_occupied(cells: Seq<MemoryCell>) -> nat
    decreases cells.len(),
{
    if cells.len() == 0 {
        0
    } else {
        count_occupied(cells.drop_last()) + if cells.last() is Empty {
            0nat
        } else {
            1nat
        }
    }
}

/// True if no two non-empty cells store the same pair.
pub open spec fn ids_unique(cells: Seq<MemoryCell>) -> bool {
    forall|i: int, j: int|
        0 <= i < cells.len() && 0 <= j < cells.len() && i != j && (#[trigger] cells[i]).data_spec()
            is Some && (#[trigger] cells[j]).data_spec() is Some ==> cells[i].data_spec().unwrap().local_pair_id
            != cells[j].data_spec().unwrap().local_pair_id
}

/// Quantum network interface card associated with a single peer.
#[derive(Debug)]
pub struct Nic {
    /// Role of this NIC.
    role: Role,
    /// Quantum memory cells assigned to this NIC.
    memory_cells: Vec<MemoryCell>,
}

impl View for Nic {
    type V = Seq<MemoryCell>;

    closed spec fn view(&self) -> Seq<MemoryCell> {
        self.memory_cells@
    }
}

impl Nic {
    pub closed spec fn role_spec(&self) -> Role {
        self.role
    }

    /// Create a NIC with a given role and number of empty memory cells.
    pub fn new(role: Role, num_qubits: u32) -> (r: Self)
        ensures
            r.role_spec() == role,
            r@.len() == num_qubits,
            forall|i: int| 0 <= i < num_qubits ==> r@[i] is Empty,
    {
        let mut memory_cells: Vec<MemoryCell> = Vec::new();
        let mut k: u32 = 0;
        while k < num_qubits
            invariant
                k <= num_qubits,
                memory_cells@.len() == k,
                forall|i: int| 0 <= i < k ==> memory_cells@[i] is Empty,
            decreases num_qubits - k,
        {
            memory_cells.push(MemoryCell::Empty);
            k = k + 1;
        }
        Self { role, memory_cells }
    }

    /// Role of this NIC.
    pub fn role(&self) -> (r: Role)
        ensures
            r == self.role_spec(),
    {
        self.role
    }

    /// The memory cells, in order.
    pub fn memory_cells(&self) -> (r: &Vec<MemoryCell>)
        ensures
            r@ == self@,
    {
        &self.memory_cells
    }

    /// Number of memory cells.
    pub fn len(&self) -> (r: usize)
        ensures
            r == self@.len(),
    {
        self.memory_cells.len()
    }

    /// Number of non-empty memory cells.
    pub fn occupied(&self) -> (r: usize)
        ensures
            r == count_occupied(self@),
    {
        let mut n: usize = 0;
        let mut i: usize = 0;
        while i < self.memory_cells.len()
            invariant
                i <= self@.len(),
                n == count_occupied(self@.subrange(0, i as int)),
                n <= i,
            decreases self@.len() - i,
        {
            proof {
                assert(self@.subrange(0, i + 1).drop_last() =~= self@.subrange(0, i as int));
            }
            if !self.memory_cells[i].is_empty() {
                n = n + 1;
            }
            i = i + 1;
        }
        proof {
            assert(self@.subrange(0, i as int) =~= self@);
        }
        n
    }

    /// Store a fresh EPR pair in the first empty memory cell or, if there is
    /// none, overwrite the oldest valid one. Cells in use are never
    /// overwritten: if all are in use, nothing changes and false is
    /// returned.
    pub fn add_epr_pair(&mut self, now: u64, epr_pair_id: u64) -> (r: bool)
        ensures
            final(self).role_spec() == old(self).role_spec(),
            final(self)@.len() == old(self)@.len(),
            r <==> has_empty(old(self)@) || has_valid(old(self)@),
            has_empty(old(self)@) ==> exists|i: int|
                first_empty(old(self)@, i) && final(self)@ == old(self)@.update(
                    i,
                    MemoryCell::Valid(MemoryCellData { created: now, local_pair_id: epr_pair_id }),
                ),
            !has_empty(old(self)@) && has_valid(old(self)@) ==> exists|i: int|
                oldest_valid_at(old(self)@, i) && final(self)@ == old(self)@.update(
                    i,
                    MemoryCell::Valid(MemoryCellData { created: now, local_pair_id: epr_pair_id }),
                ),
            !r ==> final(self)@ == old(self)@,
    {
        let mut i: usize = 0;
        while i < self.memory_cells.len()
            invariant
                i <= self@.len(),
                self@ == old(self)@,
                self.role == old(self).role,
                forall|j: int| 0 <= j < i ==> !(#[trigger] self@[j] is Empty),
            decreases self@.len() - i,
        {
            if self.memory_cells[i].is_empty() {
                self.memory_cells.set(i, MemoryCell::new(now, epr_pair_id));
                assert(first_empty(old(self)@, i as int));
                return true;
            }
            i = i + 1;
        }
        assert(!has_empty(self@));
        match self.oldest_valid() {
            Some(k) => {
                self.memory_cells.set(k, MemoryCell::new(now, epr_pair_id));
                true
            },
            None => false,
        }
    }

    /// Consume an EPR pair: empty the first cell that stores it and return
    /// its data, or None if no cell stores it.
    pub fn consume(&mut self, local_pair_id: u64) -> (r: Option<MemoryCellData>)
        ensures
            final(self).role_spec() == old(self).role_spec(),
            r is None <==> holds_none(old(self)@, local_pair_id),
            r is None ==> final(self)@ == old(self)@,
            r is Some ==> exists|i: int|
                first_holding(old(self)@, local_pair_id, i) && r == old(self)@[i].data_spec()
                    && final(self)@ == old(self)@.update(i, MemoryCell::Empty),
    {
        let mut i: usize = 0;
        while i < self.memory_cells.len()
            invariant
                i <= self@.len(),
                self@ == old(self)@,
                self.role == old(self).role,
                forall|j: int| 0 <= j < i ==> !(#[trigger] self@[j]).holds(local_pair_id),
            decreases self@.len() - i,
        {
            if let Some(data) = self.memory_cells[i].data() {
                if data.local_pair_id == local_pair_id {
                    assert(first_holding(old(self)@, local_pair_id, i as int));
                    self.memory_cells.set(i, MemoryCell::Empty);
                    return Some(data);
                }
            }
            i = i + 1;
        }
        None
    }

    /// Lock the first cell that stores pair `local_pair_id`: return true if
    /// it was valid and is now used; false if it was already used or no cell
    /// stores the pair.
    pub fn used(&mut self, local_pair_id: u64) -> (r: bool)
        ensures
            final(self).role_spec() == old(self).role_spec(),
            r <==> exists|i: int|
                first_holding(old(self)@, local_pair_id, i) && old(self)@[i] is Valid,
            r ==> exists|i: int|
                first_holding(old(self)@, local_pair_id, i) && final(self)@ == old(self)@.update(
                    i,
                    MemoryCell::Used(old(self)@[i].data_spec().unwrap()),
                ),
            !r ==> final(self)@ == old(self)@,
    {
        let mut i: usize = 0;
        while i < self.memory_cells.len()
            invariant
                i <= self@.len(),
                self@ == old(self)@,
                self.role == old(self).role,
                forall|j: int| 0 <= j < i ==> !(#[trigger] self@[j]).holds(local_pair_id),
            decreases self@.len() - i,
        {
            if let Some(data) = self.memory_cells[i].data() {
                if data.local_pair_id == local_pair_id {
                    assert(first_holding(old(self)@, local_pair_id, i as int));
                    if self.memory_cells[i].is_valid() {
                        self.memory_cells.set(i, MemoryCell::Used(data));
                        return true;
                    } else {
                        proof {
                            assert forall|k: int|
                                first_holding(old(self)@, local_pair_id, k) implies k == i by {
                                if k < i {
                                } else if k > i {
                                    assert(!old(self)@[i as int].holds(local_pair_id));
                                }
                            }
                        }
                        return false;
                    }
                }
            }
            i = i + 1;
        }
        false
    }

    /// Return the index of the oldest valid memory cell, if any.
    pub fn oldest_valid(&self) -> (r: Option<usize>)
        ensures
            r is None <==> !has_valid(self@),
            r matches Some(i) ==> oldest_valid_at(self@, i as int),
    {
        let mut best: Option<usize> = None;
        let mut i: usize = 0;
        while i < self.memory_cells.len()
            invariant
                i <= self@.len(),
                best is None <==> forall|j: int| 0 <= j < i ==> !(#[trigger] self@[j] is Valid),
                best matches Some(b) ==> oldest_valid_at(self@.subrange(0, i as int), b as int),
            decreases self@.len() - i,
        {
            let c = self.memory_cells[i];
            if let MemoryCell::Valid(d) = c {
                match best {
                    None => {
                        best = Some(i);
                    },
                    Some(b) => {
                        if d.created < created_exec(&self.memory_cells[b]) {
                            best = Some(i);
                        }
                    },
                }
            }
            i = i + 1;
        }
        proof {
            assert(self@.subrange(0, i as int) =~= self@);
        }
        best
    }

    /// Return the local pair identifier of the newest valid memory cell, if
    /// any.
    pub fn newest_valid(&self) -> (r: Option<u64>)
        ensures
            r is None <==> !has_valid(self@),
            r matches Some(id) ==> exists|i: int|
                newest_valid_at(self@, i) && self@[i].data_spec().unwrap().local_pair_id == id,
    {
        let mut best: Option<usize> = None;
        let mut i: usize = 0;
        while i < self.memory_cells.len()
            invariant
                i <= self@.len(),
                best is None <==> forall|j: int| 0 <= j < i ==> !(#[trigger] self@[j] is Valid),
                best matches Some(b) ==> newest_valid_at(self@.subrange(0, i as int), b as int),
            decreases self@.len() - i,
        {
            let c = self.memory_cells[i];
            if let MemoryCell::Valid(d) = c {
                match best {
                    None => {
                        best = Some(i);
                    },
                    Some(b) => {
                        if d.created >= created_exec(&self.memory_cells[b]) {
                            best = Some(i);
                        }
                    },
                }
            }
            i = i + 1;
        }
        proof {
            assert(self@.subrange(0, i as int) =~= self@);
        }
        match best {
            Some(b) => self.memory_cells[b].local_pair_id(),
            None => None,
        }
    }
}

/// Creation time of a cell, zero if empty.
fn created_exec(c: &MemoryCell) -> (r: u64)
    ensures
        r == created_of(*c),
{
    match c {
        MemoryCell::Empty => 0,
        MemoryCell::Valid(d) => d.created,
        MemoryCell::Used(d) => d.created,
    }
}


/// Number of cells in state `state` (0 empty, 1 valid, 2 used).
pub open spec fn count_state(cells: Seq<MemoryCell>, state: int) -> nat
    decreases cells.len(),
{
    if cells.len() == 0 {
        0
    } else {
        count_state(cells.drop_last(), state) + if match cells.last() {
            MemoryCell::Empty => state == 0,
            MemoryCell::Valid(_) => state == 1,
            MemoryCell::Used(_) => state == 2,
        } {
            1nat
        } else {
            0nat
        }
    }
}

/// Every cell of a NIC is empty, valid or used: the three counts add up to
/// the size of the NIC, which no operation changes.
pub proof fn lemma_cells_partition(cells: Seq<MemoryCell>)
    ensures
        count_state(cells, 0) + count_state(cells, 1) + count_state(cells, 2) == cells.len(),
    decreases cells.len(),
{
    if cells.len() > 0 {
        lemma_cells_partition(cells.drop_last());
    }
}

/// Consuming a pair gives it out once: in a NIC whose pair identifiers are
/// unique, once the first cell holding `id` is emptied, no cell holds `id`,
/// so consuming it again returns None; the identifiers stay unique.
pub proof fn lemma_consume_once(cells: Seq<MemoryCell>, id: u64, i: int)
    requires
        ids_unique(cells),
        first_holding(cells, id, i),
    ensures
        holds_none(cells.update(i, MemoryCell::Empty), id),
        ids_unique(cells.update(i, MemoryCell::Empty)),
{
    let c2 = cells.update(i, MemoryCell::Empty);
    assert forall|j: int| 0 <= j < c2.len() implies !(#[trigger] c2[j]).holds(id) by {
        if j != i {
            assert(c2[j] == cells[j]);
            if cells[j].holds(id) {
                assert(cells[i].data_spec() is Some && cells[j].data_spec() is Some);
            }
        }
    }
    assert forall|a: int, b: int|
        0 <= a < c2.len() && 0 <= b < c2.len() && a != b && (#[trigger] c2[a]).data_spec() is Some
            && (#[trigger] c2[b]).data_spec() is Some implies c2[a].data_spec().unwrap().local_pair_id
        != c2[b].data_spec().unwrap().local_pair_id by {
        assert(c2[a] == cells[a] && c2[b] == cells[b]);
    }
}


/// In a NIC with unique pair identifiers, the cell holding a pair is the
/// first one that holds it.
pub proof fn lemma_unique_first_holding(cells: Seq<MemoryCell>, i: int, id: u64)
    requires
        ids_unique(cells),
        0 <= i < cells.len(),
        cells[i].holds(id),
    ensures
        first_holding(cells, id, i),
{
    assert forall|j: int| 0 <= j < i implies !(#[trigger] cells[j]).holds(id) by {
        if cells[j].holds(id) {
            assert(cells[i].data_spec() is Some && cells[j].data_spec() is Some);
        }
    }
}

/// Locking or emptying a cell keeps the pair identifiers unique.
pub proof fn lemma_unique_after_update(cells: Seq<MemoryCell>, i: int, c: MemoryCell)
    requires
        ids_unique(cells),
        0 <= i < cells.len(),
        c is Empty || c.data_spec() == cells[i].data_spec(),
    ensures
        ids_unique(cells.update(i, c)),
{
    let c2 = cells.update(i, c);
    assert forall|a: int, b: int|
        0 <= a < c2.len() && 0 <= b < c2.len() && a != b && (#[trigger] c2[a]).data_spec() is Some
            && (#[trigger] c2[b]).data_spec() is Some implies c2[a].data_spec().unwrap().local_pair_id
        != c2[b].data_spec().unwrap().local_pair_id by {
        assert(c2[a].data_spec() == cells[a].data_spec());
        assert(c2[b].data_spec() == cells[b].data_spec());
    }
}

/// Whether cell `c` is in state `state` (0 empty, 1 valid, 2 used).
pub open spec fn in_state(c: MemoryCell, state: int) -> bool {
    match c {
        MemoryCell::Empty => state == 0,
        MemoryCell::Valid(_) => state == 1,
        MemoryCell::Used(_) => state == 2,
    }
}

/// Changing one cell changes each count by what that cell leaves and
/// enters.
pub proof fn lemma_count_update(cells: Seq<MemoryCell>, i: int, c: MemoryCell, state: int)
    requires
        0 <= i < cells.len(),
    ensures
        count_state(cells.update(i, c), state) + (if in_state(cells[i], state) { 1int } else { 0 })
            == count_state(cells, state) + (if in_state(c, state) { 1int } else { 0 }),
    decreases cells.len(),
{
    if i == cells.len() - 1 {
        assert(cells.update(i, c).drop_last() =~= cells.drop_last());
    } else {
        lemma_count_update(cells.drop_last(), i, c, state);
        assert(cells.update(i, c).drop_last() =~= cells.drop_last().update(i, c));
    }
}

/// Storing a pair keeps the number of cells and of used cells, and fills
/// one more cell unless the NIC was already full: the empty, valid and used
/// counts still add up to the size.
pub proof fn lemma_add_counts(c0: Seq<MemoryCell>, i: int, d: MemoryCellData)
    requires
        first_empty(c0, i) || (!has_empty(c0) && oldest_valid_at(c0, i)),
    ensures
        count_state(c0.update(i, MemoryCell::Valid(d)), 2) == count_state(c0, 2),
        count_state(c0.update(i, MemoryCell::Valid(d)), 0) == if first_empty(c0, i) {
            count_state(c0, 0) - 1
        } else {
            count_state(c0, 0) as int
        },
        count_state(c0.update(i, MemoryCell::Valid(d)), 0) + count_state(c0.update(i, MemoryCell::Valid(d)), 1)
            + count_state(c0.update(i, MemoryCell::Valid(d)), 2) == c0.len(),
{
    lemma_count_update(c0, i, MemoryCell::Valid(d), 0);
    lemma_count_update(c0, i, MemoryCell::Valid(d), 2);
    lemma_cells_partition(c0.update(i, MemoryCell::Valid(d)));
}

/// Locking a valid cell moves it from the valid count to the used count;
/// the empty count stays.
pub proof fn lemma_lock_counts(c0: Seq<MemoryCell>, i: int)
    requires
        0 <= i < c0.len(),
        c0[i] is Valid,
    ensures
        count_state(c0.update(i, MemoryCell::Used(c0[i].data_spec().unwrap())), 2) == count_state(c0, 2) + 1,
        count_state(c0.update(i, MemoryCell::Used(c0[i].data_spec().unwrap())), 1) == count_state(c0, 1) - 1,
        count_state(c0.update(i, MemoryCell::Used(c0[i].data_spec().unwrap())), 0) == count_state(c0, 0),
{
    let c = MemoryCell::Used(c0[i].data_spec().unwrap());
    lemma_count_update(c0, i, c, 0);
    lemma_count_update(c0, i, c, 1);
    lemma_count_update(c0, i, c, 2);
}

} // verus!
