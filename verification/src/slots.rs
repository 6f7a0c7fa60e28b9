//! The TCP client slot array: a fixed number of nullable slots, scanned
//! linearly for a free one on each accepted connection. When every slot
//! is taken, a new connection is refused; a slot freed by an error or an
//! EOF is reusable.

use vstd::prelude::*;

verus! {

/// How many TCP clients a bridge accepts when the configuration does not
/// say otherwise.
pub const DEFAULT_MAX_TCP_CLIENTS: usize = 3;

/// The number of occupied slots.
pub open spec fn spec_occupied_count(slots: Seq<bool>) -> int
    decreases slots.len(),
{
    if slots.len() == 0 {
        0
    } else {
        (if slots[0] { 1int } else { 0int }) + spec_occupied_count(slots.skip(1))
    }
}

/// The occupied slots are never more than the slots there are.
pub proof fn lemma_occupied_count_bounds(slots: Seq<bool>)
    ensures
        0 <= spec_occupied_count(slots) <= slots.len(),
    decreases slots.len(),
{
    if slots.len() > 0 {
        lemma_occupied_count_bounds(slots.skip(1));
    }
}

/// The occupancy of a bridge's fixed array of client slots.
pub struct ClientSlots {
    occupied: Vec<bool>,
}

impl View for ClientSlots {
    type V = Seq<bool>;

    closed spec fn view(&self) -> Seq<bool> {
        self.occupied@
    }
}

impl ClientSlots {
    /// An array of `capacity` slots, all free.
    pub fn new(capacity: usize) -> (r: Self)
        ensures
            r@.len() == capacity,
            forall|k: int| 0 <= k < capacity ==> !(#[trigger] r@[k]),
    {
        let mut occupied: Vec<bool> = Vec::new();
        let mut i: usize = 0;
        while i < capacity
            invariant
                i <= capacity,
                occupied@.len() == i,
                forall|k: int| 0 <= k < i ==> !(#[trigger] occupied@[k]),
            decreases capacity - i,
        {
            occupied.push(false);
            i += 1;
        }
        ClientSlots { occupied }
    }

    /// The number of slots, fixed at construction.
    pub fn capacity(&self) -> (r: usize)
        ensures
            r == self@.len(),
    {
        self.occupied.len()
    }

    /// Scans linearly for a free slot and takes it: the index of the slot
    /// now occupied, or nothing when every slot is taken and the
    /// connection must be refused.
    pub fn install(&mut self) -> (r: Option<usize>)
        ensures
            final(self)@.len() == old(self)@.len(),
            r is Some ==> {
                &&& r->0 < old(self)@.len()
                &&& !old(self)@[r->0 as int]
                &&& forall|k: int| 0 <= k < r->0 ==> old(self)@[k]
                &&& final(self)@ == old(self)@.update(r->0 as int, true)
            },
            r is None ==> {
                &&& forall|k: int| 0 <= k < old(self)@.len() ==> old(self)@[k]
                &&& final(self)@ == old(self)@
            },
    {
        let n = self.occupied.len();
        let mut i: usize = 0;
        while i < n
            invariant
                i <= n,
                n == self@.len(),
                self@ == old(self)@,
                forall|k: int| 0 <= k < i ==> self@[k],
            decreases n - i,
        {
            if !self.occupied[i] {
                self.occupied.set(i, true);
                return Some(i);
            }
            i += 1;
        }
        None
    }

    /// Frees a slot, as on a write error, a read error or an EOF.
    pub fn release(&mut self, i: usize)
        requires
            i < old(self)@.len(),
        ensures
            final(self)@ == old(self)@.update(i as int, false),
    {
        self.occupied.set(i, false);
    }

    /// Whether a slot is occupied.
    pub fn is_occupied(&self, i: usize) -> (r: bool)
        requires
            i < self@.len(),
        ensures
            r == self@[i as int],
    {
        self.occupied[i]
    }

    /// Counts the occupied slots; never more than the capacity.
    pub fn occupied_count(&self) -> (r: usize)
        ensures
            r == spec_occupied_count(self@),
            r <= self@.len(),
    {
        proof {
            lemma_occupied_count_bounds(self@);
        }
        let mut count: usize = 0;
        let mut i: usize = 0;
        proof {
            assert(self@.take(0) =~= Seq::<bool>::empty());
        }
        while i < self.occupied.len()
            invariant
                i <= self@.len(),
                self@.len() == self.occupied.len(),
                count == spec_occupied_count(self@.take(i as int)),
                count <= i,
            decreases self.occupied.len() - i,
        {
            proof {
                lemma_occupied_count_snoc(self@, i as int);
            }
            if self.occupied[i] {
                count += 1;
            }
            i += 1;
        }
        proof {
            assert(self@.take(self@.len() as int) =~= self@);
        }
        count
    }
}

/// Extending a prefix by one slot adds that slot's occupancy.
proof fn lemma_occupied_count_snoc(slots: Seq<bool>, i: int)
    requires
        0 <= i < slots.len(),
    ensures
        spec_occupied_count(slots.take(i + 1)) == spec_occupied_count(slots.take(i))
            + (if slots[i] { 1int } else { 0int }),
    decreases i,
{
    if i == 0 {
        let one = slots.take(1);
        assert(one[0] == slots[0]);
        assert(one.skip(1) =~= Seq::<bool>::empty());
        assert(spec_occupied_count(Seq::<bool>::empty()) == 0);
        assert(slots.take(0) =~= Seq::<bool>::empty());
    } else {
        assert(slots.take(i + 1)[0] == slots[0]);
        assert(slots.take(i + 1).skip(1) =~= slots.skip(1).take(i));
        assert(slots.take(i)[0] == slots[0]);
        assert(slots.take(i).skip(1) =~= slots.skip(1).take(i - 1));
        assert(slots.skip(1)[i - 1] == slots[i]);
        lemma_occupied_count_snoc(slots.skip(1), i - 1);
    }
}

/// Slot capacity: at any instant the occupied slots are at most the
/// configured maximum of clients, the array's fixed size.
pub proof fn lemma_slot_capacity(slots: ClientSlots)
    ensures
        spec_occupied_count(slots@) <= slots@.len(),
{
    lemma_occupied_count_bounds(slots@);
}

} // verus!
