//! Slot-based entity store with generation-tagged identifiers.
//!
//! An identifier names a slot together with the generation the slot had
//! when the entity was inserted. Removing an entity bumps the slot's
//! generation, so an identifier captured before a removal can never alias
//! a later occupant of the same slot: once dead, it stays dead.

use vstd::prelude::*;

verus! {

/// Opaque handle to an entity: a slot index plus a generation tag.
#[derive(Clone, Copy, PartialEq, Eq, Structural, Debug, Hash)]
pub struct Id {
    pub slot: usize,
    pub generation: u64,
}

/// One storage cell: the generation it currently carries, and its occupant.
#[derive(Clone, PartialEq, Debug)]
pub struct Slot<T> {
    pub generation: u64,
    pub value: Option<T>,
}

/// The entity container. Slots are reused after removal, with a bumped
/// generation; a slot whose generation counter is exhausted is never
/// reused.
#[derive(Clone, PartialEq, Debug)]
pub struct Store<T> {
    pub slots: Vec<Slot<T>>,
}

impl<T> Store<T> {
    /// `id` currently resolves to an occupant.
    pub open spec fn valid(self, id: Id) -> bool {
        &&& id.slot < self.slots@.len()
        &&& self.slots@[id.slot as int].generation == id.generation
        &&& self.slots@[id.slot as int].value is Some
    }

    /// The occupant `id` resolves to.
    pub open spec fn at(self, id: Id) -> T
        recommends
            self.valid(id),
    {
        self.slots@[id.slot as int].value->Some_0
    }

    /// `id` can never resolve again: its slot has either moved past its
    /// generation, or sits vacant at the final generation, which `insert`
    /// never reuses.
    pub open spec fn dead(self, id: Id) -> bool {
        id.slot < self.slots@.len() && {
            let s = self.slots@[id.slot as int];
            id.generation < s.generation || (s.generation == u64::MAX && s.value is None)
        }
    }

    /// Generations never regress, slots are never dropped, and a vacant
    /// slot at the final generation stays vacant. Every store operation
    /// evolves the store this way, which is what keeps dead identifiers
    /// dead.
    pub open spec fn evolves_to(self, later: Self) -> bool {
        &&& self.slots@.len() <= later.slots@.len()
        &&& forall|i: int|
            0 <= i < self.slots@.len() ==> self.slots@[i].generation
                <= #[trigger] later.slots@[i].generation
        &&& forall|i: int|
            0 <= i < self.slots@.len() && self.slots@[i].generation == u64::MAX
                && self.slots@[i].value is None ==> #[trigger] later.slots@[i].value is None
    }

    /// Number of occupied slots among the first `n`.
    pub open spec fn occupied_upto(self, n: int) -> int
        decreases n,
    {
        if n <= 0 {
            0
        } else {
            self.occupied_upto(n - 1) + if self.slots@[n - 1].value is Some {
                1int
            } else {
                0int
            }
        }
    }

    /// Number of occupied slots.
    pub open spec fn occupied(self) -> int {
        self.occupied_upto(self.slots@.len() as int)
    }

    pub fn new() -> (s: Store<T>)
        ensures
            s.slots@.len() == 0,
    {
        Store { slots: Vec::new() }
    }

    /// How many slots exist (occupied or vacant).
    pub fn slot_count(&self) -> (n: usize)
        ensures
            n == self.slots@.len(),
    {
        self.slots.len()
    }

    /// Does `id` currently resolve?
    pub fn contains(&self, id: Id) -> (r: bool)
        ensures
            r == self.valid(id),
    {
        id.slot < self.slots.len() && self.slots[id.slot].generation == id.generation
            && self.slots[id.slot].value.is_some()
    }

    /// Insert a fresh entity, reusing the first reusable vacant slot if
    /// any.
    pub fn insert(&mut self, value: T) -> (id: Id)
        ensures
            final(self).valid(id),
            final(self).at(id) == value,
            !old(self).valid(id),
            id.slot <= old(self).slots@.len(),
            forall|o: Id|
                o != id ==> (final(self).valid(o) <==> old(self).valid(o)),
            forall|o: Id|
                o != id && old(self).valid(o) ==> final(self).at(o) == old(self).at(o),
            old(self).evolves_to(*final(self)),
            final(self).slots@.len() <= old(self).slots@.len() + 1,
            id.slot < old(self).slots@.len() ==> old(self).slots@[id.slot as int].value is None
                && final(self).slots@ == old(self).slots@.update(
                id.slot as int,
                Slot { generation: id.generation, value: Some(value) },
            ),
            id.slot == old(self).slots@.len() ==> id.generation == 0 && final(self).slots@ == old(
                self,
            ).slots@.push(Slot { generation: 0, value: Some(value) }),
            // the slot chosen is the first reusable vacancy
            forall|j: int|
                0 <= j < id.slot ==> (#[trigger] old(self).slots@[j]).value is Some || old(
                    self,
                ).slots@[j].generation == u64::MAX,
            id.slot < old(self).slots@.len() ==> old(self).slots@[id.slot as int].generation
                < u64::MAX,
    {
        let n: usize = self.slots.len();
        let mut i: usize = 0;
        while i < n
            invariant
                n == self.slots@.len(),
                i <= n,
                *self == *old(self),
                forall|j: int|
                    0 <= j < i ==> (#[trigger] self.slots@[j]).value is Some || self.slots@[j].generation
                        == u64::MAX,
            decreases n - i,
        {
            if self.slots[i].value.is_none() && self.slots[i].generation < u64::MAX {
                let generation: u64 = self.slots[i].generation;
                self.slots[i] = Slot { generation, value: Some(value) };
                let id = Id { slot: i, generation };
                proof {
                    assert(self.slots@ =~= old(self).slots@.update(
                        i as int,
                        Slot { generation, value: Some(self.slots@[i as int].value->Some_0) },
                    ));
                }
                return id;
            }
            i += 1;
        }
        let generation: u64 = 0;
        self.slots.push(Slot { generation, value: Some(value) });
        Id { slot: n, generation }
    }

    /// Read the entity `id` names, if it still resolves.
    pub fn get(&self, id: Id) -> (r: Option<&T>)
        ensures
            match r {
                Some(t) => self.valid(id) && *t == self.at(id),
                None => !self.valid(id),
            },
    {
        if id.slot < self.slots.len() && self.slots[id.slot].generation == id.generation {
            self.slots[id.slot].value.as_ref()
        } else {
            None
        }
    }

    /// Mutable access to the entity `id` names; callers check `contains`
    /// first.
    pub fn get_mut(&mut self, id: Id) -> (t: &mut T)
        requires
            old(self).valid(id),
        ensures
            *t == old(self).at(id),
            final(self).slots@ == old(self).slots@.update(
                id.slot as int,
                Slot { generation: id.generation, value: Some(*final(t)) },
            ),
            final(self).valid(id),
            final(self).at(id) == *final(t),
    {
        let slot = &mut self.slots[id.slot];
        match &mut slot.value {
            Some(t) => t,
            None => unreached(),
        }
    }

    /// Remove the entity `id` names. The slot's generation is bumped, so
    /// `id` is dead for good.
    pub fn remove(&mut self, id: Id) -> (r: Option<T>)
        ensures
            match r {
                Some(t) => old(self).valid(id) && t == old(self).at(id),
                None => !old(self).valid(id),
            },
            !old(self).valid(id) ==> *final(self) == *old(self),
            old(self).valid(id) ==> final(self).slots@ == old(self).slots@.update(
                id.slot as int,
                Slot {
                    generation: if id.generation < u64::MAX {
                        (id.generation + 1) as u64
                    } else {
                        id.generation
                    },
                    value: None,
                },
            ),
            old(self).valid(id) ==> final(self).dead(id),
            !final(self).valid(id),
            old(self).evolves_to(*final(self)),
            final(self).slots@.len() == old(self).slots@.len(),
            forall|o: Id|
                o.slot != id.slot && o.slot < old(self).slots@.len() ==> final(self).slots@[o.slot as int]
                    == old(self).slots@[o.slot as int],
            forall|o: Id|
                o.slot != id.slot ==> (final(self).valid(o) <==> old(self).valid(o)),
            forall|o: Id|
                o.slot != id.slot && old(self).valid(o) ==> final(self).at(o) == old(self).at(o),
            old(self).valid(id) ==> final(self).slots@[id.slot as int].value is None,
    {
        if id.slot < self.slots.len() && self.slots[id.slot].generation == id.generation
            && self.slots[id.slot].value.is_some() {
            let slot = &mut self.slots[id.slot];
            let taken = slot.value.take();
            if slot.generation < u64::MAX {
                slot.generation = slot.generation + 1;
            }
            taken
        } else {
            None
        }
    }
}

/// Identifier safety: an identifier dead in an earlier store stays dead in
/// any store the earlier one evolves to — in particular, across any number
/// of later insertions — and a dead identifier never resolves.
pub proof fn lemma_dead_stays_dead<T>(earlier: Store<T>, later: Store<T>, id: Id)
    requires
        earlier.dead(id),
        earlier.evolves_to(later),
    ensures
        later.dead(id),
        !later.valid(id),
{
}

/// Evolution is transitive, so `lemma_dead_stays_dead` covers chains of
/// operations.
pub proof fn lemma_evolves_transitive<T>(a: Store<T>, b: Store<T>, c: Store<T>)
    requires
        a.evolves_to(b),
        b.evolves_to(c),
    ensures
        a.evolves_to(c),
{
}

} // verus!
