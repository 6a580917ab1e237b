//! The entity-component store: typed, bulk-iterable storage keyed by entity
//! identifier. One `Storage<C>` holds the components of one type, as a dense
//! table indexed by entity id; absence is `None`. Inserting for an unknown
//! identifier or removing twice is a no-op, never fatal.

use vstd::prelude::*;

verus! {

/// An opaque entity identifier; all state lives in components attached to it.
#[derive(Clone, Copy, PartialEq, Eq, Structural, Hash, Debug)]
pub struct Entity {
    pub id: usize,
}

/// The component slot of entity `i` in a storage viewed as `s`, `None` when
/// `i` is out of range.
pub open spec fn entry<C>(s: Seq<Option<C>>, i: int) -> Option<C> {
    if 0 <= i < s.len() {
        s[i]
    } else {
        None
    }
}

/// Typed component storage: slot `i` holds the component of the entity with
/// id `i`, if any.
pub struct Storage<C> {
    slots: Vec<Option<C>>,
}

impl<C> View for Storage<C> {
    type V = Seq<Option<C>>;

    closed spec fn view(&self) -> Seq<Option<C>> {
        self.slots@
    }
}

impl<C> Storage<C> {
    pub fn new() -> (r: Storage<C>)
        ensures
            r@.len() == 0,
    {
        Storage { slots: Vec::new() }
    }

    pub fn len(&self) -> (r: usize)
        ensures
            r == self@.len(),
    {
        self.slots.len()
    }

    /// Extend the table with one empty slot, for a newly created entity.
    pub fn grow(&mut self)
        ensures
            final(self)@ == old(self)@.push(None),
    {
        self.slots.push(None);
    }

    pub fn get(&self, e: Entity) -> (r: Option<&C>)
        ensures
            match r {
                Some(c) => entry(self@, e.id as int) == Some(*c),
                None => entry(self@, e.id as int) is None,
            },
    {
        if e.id < self.slots.len() {
            self.slots[e.id].as_ref()
        } else {
            None
        }
    }

    pub fn has(&self, e: Entity) -> (r: bool)
        ensures
            r == entry(self@, e.id as int) is Some,
    {
        if e.id < self.slots.len() {
            self.slots[e.id].is_some()
        } else {
            false
        }
    }

    /// Attach (or overwrite) the component of `e`. A no-op when `e` is not an
    /// identifier this store knows.
    pub fn insert(&mut self, e: Entity, c: C)
        ensures
            e.id < old(self)@.len() ==> final(self)@ == old(self)@.update(e.id as int, Some(c)),
            e.id >= old(self)@.len() ==> final(self)@ == old(self)@,
    {
        if e.id < self.slots.len() {
            self.slots[e.id] = Some(c);
        }
    }

    /// Detach the component of `e`; a no-op when absent or unknown.
    pub fn remove(&mut self, e: Entity)
        ensures
            e.id < old(self)@.len() ==> final(self)@ == old(self)@.update(e.id as int, None),
            e.id >= old(self)@.len() ==> final(self)@ == old(self)@,
    {
        if e.id < self.slots.len() {
            self.slots[e.id] = None;
        }
    }

    /// Detach every component, keeping the table's size. Used by the systems
    /// that clear a whole intent collection at the end of their pass.
    pub fn clear_all(&mut self)
        ensures
            final(self)@.len() == old(self)@.len(),
            forall|i: int| 0 <= i < final(self)@.len() ==> final(self)@[i] is None,
    {
        let n = self.slots.len();
        let mut i: usize = 0;
        while i < n
            invariant
                n == self.slots@.len(),
                i <= n,
                forall|j: int| 0 <= j < i ==> self.slots@[j] is None,
            decreases n - i,
        {
            self.slots[i] = None;
            i += 1;
        }
    }
}

} // verus!
