//! The mathematical model of a world: the entity counter, the live entities
//! in creation order, and every stored component keyed by (kind, entity).
//!
//! Each operation of `World` is specified as a function on this model, and
//! the laws the store obeys are proved here, on the model alone.

use crate::table::EntityId;
use vstd::prelude::*;

verus! {

/// Identifier of a component kind: one table per kind.
pub type KindId = u32;

/// What a world holds, as plain mathematical values.
pub struct WorldModel<C> {
    /// The identifier the next created entity receives.
    pub next: nat,
    /// The live entities, in creation order.
    pub live: Seq<EntityId>,
    /// Every stored component value, keyed by (kind, entity).
    pub components: Map<(KindId, EntityId), C>,
}

/// `s` lists the entries of `m`: each pair of `s` is an entry of `m`, no
/// entity occurs twice in `s`, and each key of `m` occurs in `s`.
pub open spec fn lists_exactly<C>(s: Seq<(EntityId, C)>, m: Map<EntityId, C>) -> bool {
    &&& forall|i: int|
        0 <= i < s.len() ==> #[trigger] m.contains_key(s[i].0) && m[s[i].0] == s[i].1
    &&& forall|i: int, j: int|
        0 <= i < s.len() && 0 <= j < s.len() && i != j ==> (#[trigger] s[i]).0 != (#[trigger] s[j]).0
    &&& forall|e: EntityId| #[trigger]
        m.contains_key(e) ==> exists|i: int| 0 <= i < s.len() && (#[trigger] s[i]).0 == e
}

/// `live` is strictly increasing and every element is below `next`.
pub open spec fn ordered_below(live: Seq<EntityId>, next: nat) -> bool {
    &&& forall|i: int, j: int|
        0 <= i < j < live.len() ==> (#[trigger] live[i]) < (#[trigger] live[j])
    &&& forall|i: int| 0 <= i < live.len() ==> (#[trigger] live[i]) < next
}

/// The predicate that holds of every entity but `entity`.
pub open spec fn other_than(entity: EntityId) -> spec_fn(EntityId) -> bool {
    |e: EntityId| e != entity
}

/// `entity` occurs in the listing `s`.
pub open spec fn lists_entity<C>(s: Seq<(EntityId, C)>, entity: EntityId) -> bool {
    exists|i: int| 0 <= i < s.len() && (#[trigger] s[i]).0 == entity
}

impl<C> WorldModel<C> {
    /// A world as it is created: no entities, no components.
    pub open spec fn empty() -> Self {
        WorldModel { next: 0, live: Seq::empty(), components: Map::empty() }
    }

    /// The live entities are in strictly increasing order, and all of them
    /// are below the next identifier.
    pub open spec fn wf(self) -> bool {
        ordered_below(self.live, self.next)
    }

    /// The world after `create_entity`: the next identifier becomes live.
    pub open spec fn create_entity(self) -> Self {
        WorldModel {
            next: self.next + 1,
            live: self.live.push(self.next as EntityId),
            components: self.components,
        }
    }

    /// The world after `despawn(entity)`: the entity leaves the live list;
    /// its components stay where they are.
    pub open spec fn despawn(self, entity: EntityId) -> Self {
        WorldModel {
            next: self.next,
            live: self.live.filter(other_than(entity)),
            components: self.components,
        }
    }

    /// The world after `add_component`: the value for (kind, entity) is set,
    /// replacing any earlier one.
    pub open spec fn add_component(self, kind: KindId, entity: EntityId, value: C) -> Self {
        WorldModel {
            next: self.next,
            live: self.live,
            components: self.components.insert((kind, entity), value),
        }
    }

    /// The world after `remove_component`: no value is left for (kind, entity).
    pub open spec fn remove_component(self, kind: KindId, entity: EntityId) -> Self {
        WorldModel {
            next: self.next,
            live: self.live,
            components: self.components.remove((kind, entity)),
        }
    }

    /// The value stored for (kind, entity), if any.
    pub open spec fn get_component(self, kind: KindId, entity: EntityId) -> Option<C> {
        if self.components.contains_key((kind, entity)) {
            Some(self.components[(kind, entity)])
        } else {
            None
        }
    }

    /// The table of one kind: each entity that holds a value of that kind.
    pub open spec fn table(self, kind: KindId) -> Map<EntityId, C> {
        Map::new(
            |e: EntityId| self.components.contains_key((kind, e)),
            |e: EntityId| self.components[(kind, e)],
        )
    }
}

/// One world operation that changes state, as a value, for stating laws
/// about sequences of calls.
pub enum Step<C> {
    /// `create_entity`.
    Create,
    /// `despawn(entity)`.
    Despawn(EntityId),
    /// `add_component(kind, entity, value)`.
    Add(KindId, EntityId, C),
    /// `remove_component(kind, entity)`.
    Remove(KindId, EntityId),
}

impl<C> Step<C> {
    /// This step stores a value of kind `kind` for `entity`.
    pub open spec fn gives(self, kind: KindId, entity: EntityId) -> bool {
        match self {
            Step::Add(k, e, _) => k == kind && e == entity,
            _ => false,
        }
    }
}

impl<C> WorldModel<C> {
    /// The world after one step.
    pub open spec fn apply(self, step: Step<C>) -> Self {
        match step {
            Step::Create => self.create_entity(),
            Step::Despawn(e) => self.despawn(e),
            Step::Add(k, e, v) => self.add_component(k, e, v),
            Step::Remove(k, e) => self.remove_component(k, e),
        }
    }

    /// The world after each of `steps` in turn.
    pub open spec fn run(self, steps: Seq<Step<C>>) -> Self
        decreases steps.len(),
    {
        if steps.len() == 0 {
            self
        } else {
            self.run(steps.drop_last()).apply(steps.last())
        }
    }
}

/// Along successive `create_entity` steps the next identifier counts up by one.
proof fn lemma_next_counts_up<C>(worlds: Seq<WorldModel<C>>, n: int)
    requires
        0 <= n < worlds.len(),
        forall|i: int| 0 <= i < worlds.len() - 1 ==> #[trigger] worlds[i + 1] == worlds[i].create_entity(),
    ensures
        worlds[n].next == worlds[0].next + n,
    decreases n,
{
    if n > 0 {
        let k = n - 1;
        lemma_next_counts_up(worlds, k);
        assert(worlds[k + 1] == worlds[k].create_entity());
    }
}

/// Successive `create_entity` calls hand out strictly increasing, and so
/// pairwise distinct, identifiers: `ids[i]` is what the call on `worlds[i]`
/// returned, and `worlds[i + 1]` is the world after it.
pub proof fn lemma_created_ids_increase<C>(worlds: Seq<WorldModel<C>>, ids: Seq<EntityId>)
    requires
        worlds.len() == ids.len() + 1,
        forall|i: int|
            0 <= i < ids.len() ==> #[trigger] ids[i] as nat == worlds[i].next && worlds[i + 1]
                == worlds[i].create_entity(),
    ensures
        forall|i: int, j: int| 0 <= i < j < ids.len() ==> ids[i] < ids[j],
{
    assert forall|i: int| 0 <= i < worlds.len() - 1 implies #[trigger] worlds[i + 1]
        == worlds[i].create_entity() by {
        assert(ids[i] as nat == worlds[i].next);
    }
    assert forall|i: int, j: int| 0 <= i < j < ids.len() implies ids[i] < ids[j] by {
        assert(ids[i] as nat == worlds[i].next);
        assert(ids[j] as nat == worlds[j].next);
        lemma_next_counts_up(worlds, i);
        lemma_next_counts_up(worlds, j);
    }
}

/// The identifier `create_entity` hands out is not live yet, it is live
/// afterwards, and the world stays well formed.
pub proof fn lemma_created_id_is_fresh<C>(m: WorldModel<C>)
    requires
        m.wf(),
        m.next < EntityId::MAX,
    ensures
        !m.live.contains(m.next as EntityId),
        m.create_entity().live.contains(m.next as EntityId),
        m.create_entity().wf(),
{
    let n = m.create_entity();
    assert(n.live[n.live.len() - 1] == m.next as EntityId);
    assert forall|i: int, j: int| 0 <= i < j < n.live.len() implies (#[trigger] n.live[i]) < (
    #[trigger] n.live[j]) by {
        if j == n.live.len() - 1 {
            assert(m.live[i] < m.next);
        } else {
            assert(m.live[i] < m.live[j]);
        }
    }
    assert forall|i: int| 0 <= i < n.live.len() implies (#[trigger] n.live[i]) < n.next by {
        if i < m.live.len() {
            assert(m.live[i] < m.next);
        }
    }
}

/// Last write wins: after `add_component`, reading the same kind and entity
/// gives the value just stored, and every other (kind, entity) reads as before.
pub proof fn lemma_get_after_add<C>(
    m: WorldModel<C>,
    kind: KindId,
    entity: EntityId,
    value: C,
    other_kind: KindId,
    other_entity: EntityId,
)
    ensures
        m.add_component(kind, entity, value).get_component(kind, entity) == Some(value),
        (other_kind, other_entity) != (kind, entity) ==> m.add_component(
            kind,
            entity,
            value,
        ).get_component(other_kind, other_entity) == m.get_component(other_kind, other_entity),
{
}

/// An entity that no step ever gave a component of kind `kind` has none: on
/// a new world, after any steps none of which adds (kind, entity), reading it
/// gives nothing.
pub proof fn lemma_never_given_is_absent<C>(steps: Seq<Step<C>>, kind: KindId, entity: EntityId)
    requires
        forall|i: int| 0 <= i < steps.len() ==> !(#[trigger] steps[i]).gives(kind, entity),
    ensures
        WorldModel::<C>::empty().run(steps).get_component(kind, entity) is None,
    decreases steps.len(),
{
    if steps.len() > 0 {
        let rest = steps.drop_last();
        assert forall|i: int| 0 <= i < rest.len() implies !(#[trigger] rest[i]).gives(
            kind,
            entity,
        ) by {
            assert(rest[i] == steps[i]);
        }
        lemma_never_given_is_absent(rest, kind, entity);
        assert(!steps[steps.len() - 1].gives(kind, entity));
    }
}

/// Round trip: `remove_component` gives back the value that was stored, and
/// afterwards nothing is stored for that kind and entity.
pub proof fn lemma_remove_after_add<C>(m: WorldModel<C>, kind: KindId, entity: EntityId, value: C)
    ensures
        m.add_component(kind, entity, value).get_component(kind, entity) == Some(value),
        m.add_component(kind, entity, value).remove_component(kind, entity).get_component(
            kind,
            entity,
        ) is None,
        m.remove_component(kind, entity).get_component(kind, entity) is None,
{
}

/// A listing of a kind's table holds exactly the entities for which a read of
/// that kind gives a value, each with that value and each once.
pub proof fn lemma_listing_matches_reads<C>(m: WorldModel<C>, kind: KindId, s: Seq<(EntityId, C)>)
    requires
        lists_exactly(s, m.table(kind)),
    ensures
        forall|i: int| 0 <= i < s.len() ==> m.get_component(kind, (#[trigger] s[i]).0) == Some(s[i].1),
        forall|e: EntityId| #[trigger] lists_entity(s, e) <==> m.get_component(kind, e) is Some,
        forall|i: int, j: int| 0 <= i < j < s.len() ==> (#[trigger] s[i]).0 != (#[trigger] s[j]).0,
{
    assert forall|i: int| 0 <= i < s.len() implies m.get_component(kind, (#[trigger] s[i]).0) == Some(
        s[i].1,
    ) by {
        assert(m.table(kind).contains_key(s[i].0));
    }
    assert forall|e: EntityId| #[trigger] lists_entity(s, e) <==> m.get_component(kind, e) is Some by {
        if m.get_component(kind, e) is Some {
            assert(m.table(kind).contains_key(e));
        }
        if exists|i: int| 0 <= i < s.len() && (#[trigger] s[i]).0 == e {
            let i = choose|i: int| 0 <= i < s.len() && (#[trigger] s[i]).0 == e;
            assert(m.table(kind).contains_key(s[i].0));
        }
    }
}

/// Two worlds that store values for the same (kind, entity) pairs (as before
/// and after `query_mut`) give listings of any kind over the same entities.
pub proof fn lemma_listing_entities_stable<C>(
    m1: WorldModel<C>,
    m2: WorldModel<C>,
    kind: KindId,
    s1: Seq<(EntityId, C)>,
    s2: Seq<(EntityId, C)>,
)
    requires
        m1.components.dom() == m2.components.dom(),
        lists_exactly(s1, m1.table(kind)),
        lists_exactly(s2, m2.table(kind)),
    ensures
        s1.len() == s2.len(),
        forall|e: EntityId| #[trigger] lists_entity(s1, e) <==> lists_entity(s2, e),
{
    lemma_listing_matches_reads(m1, kind, s1);
    lemma_listing_matches_reads(m2, kind, s2);
    assert forall|e: EntityId| #[trigger] lists_entity(s1, e) <==> lists_entity(s2, e) by {
        assert(m1.components.contains_key((kind, e)) == m2.components.contains_key((kind, e)));
        assert((m1.get_component(kind, e) is Some) == (m2.get_component(kind, e) is Some));
    }
    let ids1 = s1.map_values(|p: (EntityId, C)| p.0);
    let ids2 = s2.map_values(|p: (EntityId, C)| p.0);
    assert(ids1.no_duplicates());
    assert(ids2.no_duplicates());
    assert(ids1.to_set() =~= ids2.to_set()) by {
        assert forall|e: EntityId| ids1.to_set().contains(e) implies ids2.to_set().contains(e) by {
            let i = choose|i: int| 0 <= i < ids1.len() && ids1[i] == e;
            assert(s1[i].0 == e);
            assert(lists_entity(s1, e));
            let j = choose|j: int| 0 <= j < s2.len() && (#[trigger] s2[j]).0 == e;
            assert(ids2[j] == e);
        }
        assert forall|e: EntityId| ids2.to_set().contains(e) implies ids1.to_set().contains(e) by {
            let j = choose|j: int| 0 <= j < ids2.len() && ids2[j] == e;
            assert(s2[j].0 == e);
            assert(lists_entity(s2, e));
            assert(lists_entity(s1, e));
            let i = choose|i: int| 0 <= i < s1.len() && (#[trigger] s1[i]).0 == e;
            assert(ids1[i] == e);
        }
    }
    ids1.unique_seq_to_set();
    ids2.unique_seq_to_set();
}

/// A kind that holds no values lists nothing.
pub proof fn lemma_unused_kind_lists_nothing<C>(m: WorldModel<C>, kind: KindId, s: Seq<(EntityId, C)>)
    requires
        lists_exactly(s, m.table(kind)),
        forall|e: EntityId| !m.components.contains_key((kind, e)),
    ensures
        s.len() == 0,
{
    if s.len() > 0 {
        assert(m.table(kind).contains_key(s[0].0));
    }
}

/// `despawn` takes the entity out of the live list but leaves every one of
/// its components readable, and the world stays well formed.
pub proof fn lemma_despawn_keeps_components<C>(m: WorldModel<C>, entity: EntityId, kind: KindId)
    requires
        m.wf(),
    ensures
        !m.despawn(entity).live.contains(entity),
        m.despawn(entity).get_component(kind, entity) == m.get_component(kind, entity),
        m.despawn(entity).wf(),
{
    broadcast use vstd::seq_lib::group_filter_ensures;

    let f = other_than(entity);
    if m.despawn(entity).live.contains(entity) {
        let i = choose|i: int| 0 <= i < m.live.filter(f).len() && m.live.filter(f)[i] == entity;
        assert(f(m.live.filter(f)[i]));
    }
    lemma_filter_keeps_order(m.live, m.next, entity);
}

/// Dropping one entity from an ordered live list keeps it ordered.
proof fn lemma_filter_keeps_order(live: Seq<EntityId>, next: nat, entity: EntityId)
    requires
        ordered_below(live, next),
    ensures
        ordered_below(live.filter(other_than(entity)), next),
    decreases live.len(),
{
    reveal(Seq::filter);
    let f = other_than(entity);
    if live.len() > 0 {
        let rest = live.drop_last();
        assert forall|i: int, j: int| 0 <= i < j < rest.len() implies (#[trigger] rest[i]) < (
        #[trigger] rest[j]) by {
            assert(live[i] < live[j]);
        }
        assert forall|i: int| 0 <= i < rest.len() implies (#[trigger] rest[i]) < next by {
            assert(live[i] < next);
        }
        lemma_filter_keeps_order(rest, next, entity);
        let fr = rest.filter(f);
        broadcast use vstd::seq_lib::group_filter_ensures;

        if f(live.last()) {
            let out = fr.push(live.last());
            assert forall|i: int, j: int| 0 <= i < j < out.len() implies (#[trigger] out[i]) < (
            #[trigger] out[j]) by {
                if j == out.len() - 1 {
                    assert(fr.contains(fr[i]));
                    rest.lemma_filter_contains_rev(f, fr[i]);
                    let k = choose|k: int| 0 <= k < rest.len() && rest[k] == fr[i];
                    assert(live[k] < live[live.len() - 1]);
                } else {
                    assert(fr[i] < fr[j]);
                }
            }
            assert forall|i: int| 0 <= i < out.len() implies (#[trigger] out[i]) < next by {
                if i == out.len() - 1 {
                    assert(live[live.len() - 1] < next);
                } else {
                    assert(fr[i] < next);
                }
            }
        }
    }
}

} // verus!
