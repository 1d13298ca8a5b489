//! One table of component values of a single kind, keyed by entity.
//!
//! The values sit densely in a vector of slots; a hash index maps each
//! entity to its slot, so lookups are constant time on average and the slots
//! can be walked (and mutably borrowed) in order.

use std::collections::HashMap;
use crate::model::lists_exactly;
use vstd::prelude::*;

verus! {

broadcast use vstd::std_specs::hash::group_hash_axioms;

/// Entity identifier.
pub type EntityId = u32;

/// A map from entity to one component value.
pub struct Table<C> {
    index: HashMap<EntityId, usize>,
    slots: Vec<(EntityId, C)>,
}

impl<C> Table<C> {
    /// The slot index and the slots agree: each indexed entity names the slot
    /// that holds it, and each slot is indexed by its own entity.
    pub closed spec fn wf(self) -> bool {
        &&& forall|e: EntityId| #[trigger] self.index@.contains_key(e) ==> {
            &&& self.index@[e] < self.slots@.len()
            &&& self.slots@[self.index@[e] as int].0 == e
        }
        &&& forall|i: int| 0 <= i < self.slots@.len() ==> {
            &&& #[trigger] self.index@.contains_key(self.slots@[i].0)
            &&& self.index@[self.slots@[i].0] == i
        }
    }

    /// The table's contents.
    pub closed spec fn view(self) -> Map<EntityId, C> {
        Map::new(
            |e: EntityId| self.index@.contains_key(e),
            |e: EntityId| self.slots@[self.index@[e] as int].1,
        )
    }

    /// An empty table.
    pub fn new() -> (t: Self)
        ensures
            t.wf(),
            t.view() == Map::<EntityId, C>::empty(),
    {
        let t = Table { index: HashMap::new(), slots: Vec::new() };
        assert(t.view() =~= Map::<EntityId, C>::empty());
        t
    }

    /// The value stored for `entity`, if any.
    pub fn get(&self, entity: EntityId) -> (r: Option<&C>)
        requires
            self.wf(),
        ensures
            match r {
                Some(v) => self.view().contains_key(entity) && *v == self.view()[entity],
                None => !self.view().contains_key(entity),
            },
    {
        match self.index.get(&entity) {
            Some(i) => Some(&self.slots[*i].1),
            None => None,
        }
    }

    /// Exclusive access to the value stored for `entity`, if any; whatever
    /// is written through it becomes the stored value.
    pub fn get_mut(&mut self, entity: EntityId) -> (r: Option<&mut C>)
        requires
            old(self).wf(),
        ensures
            final(self).wf(),
            match r {
                Some(v) => {
                    &&& old(self).view().contains_key(entity)
                    &&& *v == old(self).view()[entity]
                    &&& final(self).view() == old(self).view().insert(entity, *final(v))
                },
                None => {
                    &&& !old(self).view().contains_key(entity)
                    &&& final(self).view() == old(self).view()
                },
            },
    {
        match self.index.get(&entity) {
            Some(i) => {
                let i = *i;
                let slot = &mut self.slots[i];
                Some(&mut slot.1)
            },
            None => None,
        }
    }

    /// Store `value` for `entity`, replacing any earlier value. A new entity
    /// takes a slot at the end.
    pub fn insert(&mut self, entity: EntityId, value: C)
        requires
            old(self).wf(),
        ensures
            final(self).wf(),
            final(self).view() == old(self).view().insert(entity, value),
    {
        match self.index.get(&entity) {
            Some(i) => {
                let i = *i;
                self.slots.set(i, (entity, value));
            },
            None => {
                let n = self.slots.len();
                self.slots.push((entity, value));
                self.index.insert(entity, n);
            },
        }
        assert(self.view() =~= old(self).view().insert(entity, value));
    }

    /// Take out the value stored for `entity`, if any. The last slot moves
    /// into the freed one.
    pub fn remove(&mut self, entity: EntityId) -> (r: Option<C>)
        requires
            old(self).wf(),
        ensures
            final(self).wf(),
            final(self).view() == old(self).view().remove(entity),
            match r {
                Some(v) => old(self).view().contains_key(entity) && v == old(self).view()[entity],
                None => !old(self).view().contains_key(entity),
            },
    {
        match self.index.remove(&entity) {
            Some(i) => {
                let ghost last = (old(self).slots@.len() - 1) as int;
                let ghost moved = old(self).slots@[last].0;
                assert(old(self).index@.contains_key(old(self).slots@[last].0));
                let (_, value) = self.slots.swap_remove(i);
                if i < self.slots.len() {
                    let moved = self.slots[i].0;
                    self.index.insert(moved, i);
                }
                assert forall|e: EntityId| #[trigger] self.index@.contains_key(e) implies {
                    &&& self.index@[e] < self.slots@.len()
                    &&& self.slots@[self.index@[e] as int].0 == e
                } by {
                    if e != moved {
                        assert(old(self).index@.contains_key(e));
                    }
                }
                assert forall|k: int| 0 <= k < self.slots@.len() implies {
                    &&& #[trigger] self.index@.contains_key(self.slots@[k].0)
                    &&& self.index@[self.slots@[k].0] == k
                } by {
                    if k != i {
                        assert(old(self).index@.contains_key(old(self).slots@[k].0));
                    }
                }
                assert(self.view() =~= old(self).view().remove(entity));
                Some(value)
            },
            None => None,
        }
    }

    /// The slots list the table's entries exactly once each.
    proof fn lemma_slots_list_view(self)
        requires
            self.wf(),
        ensures
            lists_exactly(self.slots@, self.view()),
    {
        assert forall|e: EntityId| #[trigger] self.view().contains_key(e) implies exists|i: int|
            0 <= i < self.slots@.len() && (#[trigger] self.slots@[i]).0 == e by {
            let i = self.index@[e] as int;
            assert(self.slots@[i].0 == e);
        }
        assert forall|i: int, j: int|
            0 <= i < self.slots@.len() && 0 <= j < self.slots@.len() && i != j implies (
            #[trigger] self.slots@[i]).0 != (#[trigger] self.slots@[j]).0 by {
            assert(self.index@.contains_key(self.slots@[i].0));
            assert(self.index@.contains_key(self.slots@[j].0));
        }
        assert forall|i: int| 0 <= i < self.slots@.len() implies #[trigger] self.view().contains_key(
            self.slots@[i].0,
        ) && self.view()[self.slots@[i].0] == self.slots@[i].1 by {
            assert(self.index@.contains_key(self.slots@[i].0));
        }
    }

    /// Every slot in storage order, with a shared reference to its value.
    pub fn iter(&self) -> (r: Vec<(EntityId, &C)>)
        requires
            self.wf(),
        ensures
            lists_exactly(r@.map_values(|p: (EntityId, &C)| (p.0, *p.1)), self.view()),
    {
        let mut out: Vec<(EntityId, &C)> = Vec::new();
        let mut i: usize = 0;
        while i < self.slots.len()
            invariant
                i <= self.slots@.len(),
                out@.len() == i,
                forall|j: int|
                    0 <= j < i ==> (#[trigger] out@[j]).0 == self.slots@[j].0 && *out@[j].1
                        == self.slots@[j].1,
            decreases self.slots@.len() - i,
        {
            let slot = &self.slots[i];
            out.push((slot.0, &slot.1));
            i = i + 1;
        }
        proof {
            assert(out@.map_values(|p: (EntityId, &C)| (p.0, *p.1)) =~= self.slots@);
            self.lemma_slots_list_view();
        }
        out
    }

    /// Every slot in storage order, with an exclusive reference to its value.
    pub fn iter_mut(&mut self) -> (r: Vec<(EntityId, &mut C)>)
        requires
            old(self).wf(),
        ensures
            lists_exactly(r@.map_values(|p: (EntityId, &mut C)| (p.0, *p.1)), old(self).view()),
            final(self).wf(),
            final(self).view().dom() == old(self).view().dom(),
            forall|i: int|
                0 <= i < r@.len() ==> #[trigger] final(self).view().contains_key(r@[i].0)
                    && final(self).view()[r@[i].0] == *final(r@[i].1),
    {
        let mut out: Vec<(EntityId, &mut C)> = Vec::new();
        let mut rest: &mut [(EntityId, C)] = self.slots.as_mut_slice();
        let ghost n = rest@.len();
        while rest.len() > 0
            invariant
                out@.len() + rest@.len() == n,
                n == old(self).slots@.len(),
                forall|j: int|
                    0 <= j < out@.len() ==> (#[trigger] out@[j]).0 == old(self).slots@[j].0
                        && *out@[j].1 == old(self).slots@[j].1,
                forall|j: int|
                    0 <= j < rest@.len() ==> #[trigger] rest@[j] == old(self).slots@[out@.len() + j],
                after_borrow(self.slots)@ == Seq::new(
                    out@.len() as nat,
                    |j: int| (out@[j].0, *final(out@[j].1)),
                ) + final(rest)@,
            decreases rest@.len(),
        {
            let (head, tail) = rest.split_at_mut(1);
            let slot = head.first_mut().unwrap();
            out.push((slot.0, &mut slot.1));
            rest = tail;
        }
        proof {
            assert forall|i: int| 0 <= i < n implies #[trigger] after_borrow(self.slots)@[i].0
                == old(self).slots@[i].0 by {
                assert(after_borrow(self.slots)@[i] == (out@[i].0, *final(out@[i].1)));
            }
            assert(out@.map_values(|p: (EntityId, &mut C)| (p.0, *p.1)) =~= old(self).slots@);
            old(self).lemma_slots_list_view();
        }
        out
    }
}

} // verus!
