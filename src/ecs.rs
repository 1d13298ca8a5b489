//! The world: entity allocation and one component table per kind.
//!
//! Component values of every kind share one value type `C` (typically an
//! enum with one variant per kind); a `KindId` names the table a value goes
//! to. Each operation is specified by its effect on the world's model
//! (`WorldModel`).

use crate::table::Table;
use std::collections::hash_map::Entry;
use std::collections::HashMap;
use vstd::prelude::*;

use crate::model::{ordered_below, other_than};
pub use crate::model::{lists_exactly, KindId, WorldModel};
pub use crate::table::EntityId;

verus! {

broadcast use vstd::std_specs::hash::group_hash_axioms;

/// Marker for types that are stored as component values. A world holds
/// values of one such type, usually an enum with one variant per kind.
pub trait Component {}

/// Entities and their components.
pub struct World<C> {
    next_entity_id: EntityId,
    entities: Vec<EntityId>,
    components: HashMap<KindId, Table<C>>,
}

impl<C> View for World<C> {
    type V = WorldModel<C>;

    closed spec fn view(&self) -> WorldModel<C> {
        WorldModel {
            next: self.next_entity_id as nat,
            live: self.entities@,
            components: components_of(self.components@),
        }
    }
}

/// The table of `kind` in `tables`; empty where there is none.
spec fn table_of<C>(tables: Map<KindId, Table<C>>, kind: KindId) -> Map<EntityId, C> {
    if tables.contains_key(kind) {
        tables[kind].view()
    } else {
        Map::empty()
    }
}

/// All values of all tables, keyed by (kind, entity).
spec fn components_of<C>(tables: Map<KindId, Table<C>>) -> Map<(KindId, EntityId), C> {
    Map::new(
        |p: (KindId, EntityId)| table_of(tables, p.0).contains_key(p.1),
        |p: (KindId, EntityId)| table_of(tables, p.0)[p.1],
    )
}

/// Every table is internally consistent.
spec fn tables_wf<C>(tables: Map<KindId, Table<C>>) -> bool {
    forall|k: KindId| #[trigger] tables.contains_key(k) ==> tables[k].wf()
}

/// Putting a consistent table in place keeps all tables consistent.
proof fn lemma_tables_wf_insert<C>()
    ensures
        forall|tables: Map<KindId, Table<C>>, kind: KindId, t: Table<C>|
            tables_wf(tables) && t.wf() ==> #[trigger] tables_wf(tables.insert(kind, t)),
{
    assert forall|tables: Map<KindId, Table<C>>, kind: KindId, t: Table<C>|
        tables_wf(tables) && t.wf() implies #[trigger] tables_wf(tables.insert(kind, t)) by {
        assert forall|k: KindId| #[trigger] tables.insert(kind, t).contains_key(k) implies tables.insert(
            kind,
            t,
        )[k].wf() by {
            if k != kind {
                assert(tables.contains_key(k));
            }
        }
    }
}

/// Replacing the table of `kind` by one that differs from it only at
/// `entity` changes the combined map only at (kind, entity).
proof fn lemma_components_at<C>(tables: Map<KindId, Table<C>>, kind: KindId, entity: EntityId)
    ensures
        forall|t: Table<C>, v: C|
            #![trigger components_of(tables.insert(kind, t)), components_of(tables).insert((kind, entity), v)]
            t.view() == table_of(tables, kind).insert(entity, v) ==> components_of(
                tables.insert(kind, t),
            ) == components_of(tables).insert((kind, entity), v),
        forall|t: Table<C>|
            #![trigger components_of(tables.insert(kind, t)), components_of(tables).remove((kind, entity))]
            t.view() == table_of(tables, kind).remove(entity) ==> components_of(
                tables.insert(kind, t),
            ) == components_of(tables).remove((kind, entity)),
        forall|t: Table<C>| #![trigger components_of(tables.insert(kind, t))]
            t.view() == table_of(tables, kind) ==> components_of(tables.insert(kind, t))
                == components_of(tables),
{
    assert forall|t: Table<C>, v: C|
        #![trigger components_of(tables.insert(kind, t)), components_of(tables).insert((kind, entity), v)]
        t.view() == table_of(tables, kind).insert(entity, v) implies components_of(
        tables.insert(kind, t),
    ) == components_of(tables).insert((kind, entity), v) by {
        assert(components_of(tables.insert(kind, t)) =~= components_of(tables).insert(
            (kind, entity),
            v,
        ));
    }
    assert forall|t: Table<C>|
        #![trigger components_of(tables.insert(kind, t)), components_of(tables).remove((kind, entity))]
        t.view() == table_of(tables, kind).remove(entity) implies components_of(
        tables.insert(kind, t),
    ) == components_of(tables).remove((kind, entity)) by {
        assert(components_of(tables.insert(kind, t)) =~= components_of(tables).remove(
            (kind, entity),
        ));
    }
    assert forall|t: Table<C>| #![trigger components_of(tables.insert(kind, t))]
        t.view() == table_of(tables, kind) implies components_of(tables.insert(kind, t))
        == components_of(tables) by {
        assert(components_of(tables.insert(kind, t)) =~= components_of(tables));
    }
}

impl<C: Component> Default for World<C> {
    /// An empty world.
    fn default() -> (w: Self)
        ensures
            w.wf(),
            w@ == WorldModel::<C>::empty(),
    {
        World::new()
    }
}

impl<C: Component> World<C> {
    /// The model is well formed and every table is consistent.
    pub closed spec fn wf(self) -> bool {
        &&& self@.wf()
        &&& tables_wf(self.components@)
    }

    /// Create an empty world.
    pub fn new() -> (w: Self)
        ensures
            w.wf(),
            w@ == WorldModel::<C>::empty(),
    {
        let w = World { next_entity_id: 0, entities: Vec::new(), components: HashMap::new() };
        assert(w@.components =~= Map::<(KindId, EntityId), C>::empty());
        assert(tables_wf(w.components@));
        w
    }

    /// The identifier the next created entity receives.
    pub fn next_id(&self) -> (r: EntityId)
        ensures
            r as nat == self@.next,
    {
        self.next_entity_id
    }

    /// Allocate the next identifier and append it to the live entities.
    pub fn create_entity(&mut self) -> (id: EntityId)
        requires
            old(self).wf(),
            old(self)@.next < EntityId::MAX,
        ensures
            final(self).wf(),
            id as nat == old(self)@.next,
            final(self)@ == old(self)@.create_entity(),
    {
        let id = self.next_entity_id;
        self.next_entity_id = id + 1;
        self.entities.push(id);
        assert forall|i: int, j: int| 0 <= i < j < self.entities@.len() implies (
        #[trigger] self.entities@[i]) < (#[trigger] self.entities@[j]) by {
            assert(old(self)@.live == old(self).entities@);
            if j == self.entities@.len() - 1 {
                assert(old(self)@.live[i] < old(self)@.next);
            } else {
                assert(old(self)@.live[i] < old(self)@.live[j]);
            }
        }
        assert forall|i: int| 0 <= i < self.entities@.len() implies (#[trigger] self@.live[i])
            < self@.next by {
            assert(old(self)@.live == old(self).entities@);
            if i < old(self).entities@.len() {
                assert(old(self)@.live[i] < old(self)@.next);
            }
        }
        id
    }

    /// Store `component` as the value of kind `kind` for `entity`, replacing
    /// any earlier one. The entity need not be live.
    pub fn add_component(&mut self, kind: KindId, entity: EntityId, component: C)
        requires
            old(self).wf(),
        ensures
            final(self).wf(),
            final(self)@ == old(self)@.add_component(kind, entity, component),
    {
        let table = self.components.entry(kind).or_insert(Table::new());
        proof {
            lemma_tables_wf_insert::<C>();
            lemma_components_at(old(self).components@, kind, entity);
        }
        table.insert(entity, component);
    }

    /// The value of kind `kind` stored for `entity`, if any.
    pub fn get_component(&self, kind: KindId, entity: EntityId) -> (r: Option<&C>)
        requires
            self.wf(),
        ensures
            match r {
                Some(v) => self@.get_component(kind, entity) == Some(*v),
                None => self@.get_component(kind, entity) is None,
            },
    {
        match self.components.get(&kind) {
            Some(table) => table.get(entity),
            None => None,
        }
    }

    /// Exclusive access to the value of kind `kind` stored for `entity`, if
    /// any; whatever is written through it becomes the stored value.
    pub fn get_component_mut(&mut self, kind: KindId, entity: EntityId) -> (r: Option<&mut C>)
        requires
            old(self).wf(),
        ensures
            final(self).wf(),
            match r {
                Some(v) => {
                    &&& old(self)@.get_component(kind, entity) == Some(*v)
                    &&& final(self)@ == old(self)@.add_component(kind, entity, *final(v))
                },
                None => {
                    &&& old(self)@.get_component(kind, entity) is None
                    &&& final(self)@ == old(self)@
                },
            },
    {
        proof {
            lemma_tables_wf_insert::<C>();
            lemma_components_at(old(self).components@, kind, entity);
        }
        match self.components.entry(kind) {
            Entry::Occupied(slot) => slot.into_mut().get_mut(entity),
            Entry::Vacant(_) => {
                assert(old(self).components@.remove(kind) =~= old(self).components@);
                None
            },
        }
    }

    /// Take the value of kind `kind` out of `entity`'s components, if any.
    pub fn remove_component(&mut self, kind: KindId, entity: EntityId) -> (r: Option<C>)
        requires
            old(self).wf(),
        ensures
            final(self).wf(),
            r == old(self)@.get_component(kind, entity),
            final(self)@ == old(self)@.remove_component(kind, entity),
    {
        proof {
            lemma_tables_wf_insert::<C>();
            lemma_components_at(old(self).components@, kind, entity);
        }
        match self.components.entry(kind) {
            Entry::Occupied(slot) => {
                let table = slot.into_mut();
                assert(table.view() == table_of(old(self).components@, kind));
                let r = table.remove(entity);
                assert(table.view() == table_of(old(self).components@, kind).remove(entity));
                assert(components_of(old(self).components@.insert(kind, *table)) == components_of(
                    old(self).components@,
                ).remove((kind, entity)));
                r
            },
            Entry::Vacant(_) => {
                assert(old(self).components@.remove(kind) =~= old(self).components@);
                assert(components_of(old(self).components@) =~= components_of(
                    old(self).components@,
                ).remove((kind, entity)));
                None
            },
        }
    }

    /// Whether `entity` holds a value of kind `kind`.
    pub fn has_component(&self, kind: KindId, entity: EntityId) -> (r: bool)
        requires
            self.wf(),
        ensures
            r == self@.get_component(kind, entity) is Some,
    {
        self.get_component(kind, entity).is_some()
    }

    /// Every (entity, value) pair of kind `kind`, each entity once, in the
    /// table's storage order. A kind never used gives an empty list.
    pub fn query(&self, kind: KindId) -> (r: Vec<(EntityId, &C)>)
        requires
            self.wf(),
        ensures
            lists_exactly(r@.map_values(|p: (EntityId, &C)| (p.0, *p.1)), self@.table(kind)),
    {
        assert(self@.table(kind) =~= table_of(self.components@, kind));
        match self.components.get(&kind) {
            Some(table) => table.iter(),
            None => Vec::new(),
        }
    }

    /// Every (entity, value) pair of kind `kind`, each entity once, with
    /// exclusive access to the value; whatever is written through a reference
    /// becomes the stored value. No entity gains or loses a component.
    pub fn query_mut(&mut self, kind: KindId) -> (r: Vec<(EntityId, &mut C)>)
        requires
            old(self).wf(),
        ensures
            final(self).wf(),
            lists_exactly(r@.map_values(|p: (EntityId, &mut C)| (p.0, *p.1)), old(self)@.table(kind)),
            final(self)@.next == old(self)@.next,
            final(self)@.live == old(self)@.live,
            final(self)@.components.dom() == old(self)@.components.dom(),
            forall|p: (KindId, EntityId)|
                #[trigger] old(self)@.components.contains_key(p) && p.0 != kind
                    ==> final(self)@.components[p] == old(self)@.components[p],
            forall|i: int|
                0 <= i < r@.len() ==> final(self)@.components[(kind, #[trigger] r@[i].0)]
                    == *final(r@[i].1),
    {
        assert(old(self)@.table(kind) =~= table_of(old(self).components@, kind));
        proof {
            lemma_tables_wf_insert::<C>();
        }
        match self.components.entry(kind) {
            Entry::Occupied(slot) => slot.into_mut().iter_mut(),
            Entry::Vacant(_) => {
                assert(old(self).components@.remove(kind) =~= old(self).components@);
                Vec::new()
            },
        }
    }

    /// The live entities, in creation order.
    pub fn entities(&self) -> (r: &[EntityId])
        ensures
            r@ == self@.live,
    {
        self.entities.as_slice()
    }

    /// Remove `entity` from the live entities; nothing happens if it is not
    /// live. Its components stay in their tables.
    pub fn despawn(&mut self, entity: EntityId)
        requires
            old(self).wf(),
        ensures
            final(self).wf(),
            final(self)@ == old(self)@.despawn(entity),
    {
        let ghost live = self.entities@;
        let mut kept: Vec<EntityId> = Vec::new();
        let mut i: usize = 0;
        while i < self.entities.len()
            invariant
                self.entities@ == live,
                live == old(self)@.live,
                ordered_below(live, self.next_entity_id as nat),
                i <= live.len(),
                kept@ == live.subrange(0, i as int).filter(other_than(entity)),
                forall|a: int, b: int|
                    0 <= a < b < kept@.len() ==> (#[trigger] kept@[a]) < (#[trigger] kept@[b]),
                forall|a: int, j: int|
                    0 <= a < kept@.len() && i <= j < live.len() ==> (#[trigger] kept@[a]) < (
                    #[trigger] live[j]),
                forall|a: int| 0 <= a < kept@.len() ==> (#[trigger] kept@[a]) < self.next_entity_id,
            decreases live.len() - i,
        {
            let e = self.entities[i];
            if e != entity {
                kept.push(e);
            }
            proof {
                reveal(Seq::filter);
                let s = live.subrange(0, i + 1);
                assert(s.drop_last() =~= live.subrange(0, i as int));
                assert(s.last() == e);
                assert(other_than(entity)(e) == (e != entity));
            }
            i = i + 1;
        }
        assert(live.subrange(0, i as int) =~= live);
        self.entities = kept;
    }

    /// Create an entity and return a builder that adds components to it.
    pub fn spawn(&mut self) -> (b: EntityBuilder<'_, C>)
        requires
            old(self).wf(),
            old(self)@.next < EntityId::MAX,
        ensures
            b.world_spec().wf(),
            b.id_spec() as nat == old(self)@.next,
            b.world_spec()@ == old(self)@.create_entity(),
            *final(self) == *final(b.world_ref()),
    {
        let id = self.create_entity();
        EntityBuilder { world: self, entity: id }
    }
}

/// Adds components to one newly created entity, call after call.
///
/// Each `with` stores its component at once; `build` only hands back the
/// entity.
pub struct EntityBuilder<'a, C> {
    world: &'a mut World<C>,
    entity: EntityId,
}

impl<'a, C: Component> EntityBuilder<'a, C> {
    /// The entity being built.
    pub closed spec fn id_spec(self) -> EntityId {
        self.entity
    }

    /// The world as it stands now.
    pub closed spec fn world_spec(self) -> World<C> {
        *self.world
    }

    /// The borrow of the world that the builder holds.
    pub closed spec fn world_ref(self) -> &'a mut World<C> {
        self.world
    }

    /// Store `component` as the value of kind `kind` for the entity.
    pub fn with(self, kind: KindId, component: C) -> (r: Self)
        requires
            self.world_spec().wf(),
        ensures
            r.world_spec().wf(),
            r.id_spec() == self.id_spec(),
            r.world_spec()@ == self.world_spec()@.add_component(kind, self.id_spec(), component),
            *final(r.world_ref()) == *final(self.world_ref()),
    {
        let EntityBuilder { world, entity } = self;
        world.add_component(kind, entity, component);
        EntityBuilder { world, entity }
    }

    /// The entity being built.
    pub fn id(&self) -> (r: EntityId)
        ensures
            r == self.id_spec(),
    {
        self.entity
    }

    /// Finish: hand back the entity. The world is left as the builder made it.
    pub fn build(self) -> (r: EntityId)
        ensures
            r == self.id_spec(),
            *final(self.world_ref()) == self.world_spec(),
    {
        self.entity
    }
}

} // verus!
