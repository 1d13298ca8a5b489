use qsi::ecs::{Component, EntityId, KindId, World};

const POSITION: KindId = 0;
const LABEL: KindId = 1;
const UNUSED: KindId = 9;

#[derive(Clone, Debug, PartialEq)]
enum Part {
    Position(i64, i64),
    Label(String),
}

impl Component for Part {}

fn ids_of(pairs: &[(EntityId, &Part)]) -> Vec<EntityId> {
    let mut ids: Vec<EntityId> = pairs.iter().map(|p| p.0).collect();
    ids.sort();
    ids
}

#[test]
fn created_ids_start_at_zero_and_increase() {
    let mut w: World<Part> = World::new();
    let a = w.create_entity();
    let b = w.create_entity();
    let c = w.create_entity();
    assert_eq!((a, b, c), (0, 1, 2));
    assert_eq!(w.entities(), &[0, 1, 2]);
}

#[test]
fn ids_are_not_reused_after_despawn() {
    let mut w: World<Part> = World::new();
    let a = w.create_entity();
    let b = w.create_entity();
    w.despawn(b);
    w.despawn(a);
    let c = w.create_entity();
    assert_eq!(c, 2);
    assert_eq!(w.entities(), &[2]);
}

#[test]
fn last_write_wins() {
    let mut w: World<Part> = World::new();
    let e = w.create_entity();
    w.add_component(POSITION, e, Part::Position(1, 2));
    assert_eq!(w.get_component(POSITION, e), Some(&Part::Position(1, 2)));
    w.add_component(POSITION, e, Part::Position(3, 4));
    assert_eq!(w.get_component(POSITION, e), Some(&Part::Position(3, 4)));
    assert_eq!(w.query(POSITION).len(), 1);
}

#[test]
fn kinds_are_separate_tables() {
    let mut w: World<Part> = World::new();
    let e = w.create_entity();
    w.add_component(POSITION, e, Part::Position(1, 1));
    w.add_component(LABEL, e, Part::Label("crate".to_string()));
    assert_eq!(w.get_component(POSITION, e), Some(&Part::Position(1, 1)));
    assert_eq!(w.get_component(LABEL, e), Some(&Part::Label("crate".to_string())));
}

#[test]
fn never_given_is_absent() {
    let mut w: World<Part> = World::new();
    let e = w.create_entity();
    let f = w.create_entity();
    w.add_component(POSITION, f, Part::Position(0, 0));
    assert_eq!(w.get_component(POSITION, e), None);
    assert!(!w.has_component(POSITION, e));
    assert_eq!(w.get_component(LABEL, f), None);
    assert!(!w.has_component(LABEL, f));
    assert!(w.has_component(POSITION, f));
    assert_eq!(w.get_component(UNUSED, 77), None);
}

#[test]
fn remove_round_trip() {
    let mut w: World<Part> = World::new();
    let e = w.create_entity();
    w.add_component(LABEL, e, Part::Label("a".to_string()));
    assert_eq!(w.remove_component(LABEL, e), Some(Part::Label("a".to_string())));
    assert_eq!(w.get_component(LABEL, e), None);
    assert!(!w.has_component(LABEL, e));
    assert_eq!(w.remove_component(LABEL, e), None);
    assert_eq!(w.remove_component(UNUSED, e), None);
}

#[test]
fn remove_moves_last_slot_and_keeps_others() {
    let mut w: World<Part> = World::new();
    for i in 0..5 {
        let e = w.create_entity();
        w.add_component(POSITION, e, Part::Position(i, -i));
    }
    assert_eq!(w.remove_component(POSITION, 1), Some(Part::Position(1, -1)));
    for i in [0i64, 2, 3, 4] {
        assert_eq!(w.get_component(POSITION, i as EntityId), Some(&Part::Position(i, -i)));
    }
    assert_eq!(ids_of(&w.query(POSITION)), vec![0, 2, 3, 4]);
}

#[test]
fn query_lists_exactly_the_present_pairs() {
    let mut w: World<Part> = World::new();
    let a = w.create_entity();
    let b = w.create_entity();
    let c = w.create_entity();
    w.add_component(POSITION, a, Part::Position(1, 0));
    w.add_component(POSITION, c, Part::Position(3, 0));
    w.add_component(LABEL, b, Part::Label("b".to_string()));
    let listed = w.query(POSITION);
    assert_eq!(ids_of(&listed), vec![a, c]);
    for (e, v) in &listed {
        assert_eq!(w.get_component(POSITION, *e), Some(*v));
    }
    assert!(!w.has_component(POSITION, b));
}

#[test]
fn query_of_unused_kind_is_empty() {
    let mut w: World<Part> = World::new();
    let e = w.create_entity();
    w.add_component(POSITION, e, Part::Position(0, 0));
    assert!(w.query(UNUSED).is_empty());
    let mut fresh: World<Part> = World::new();
    assert!(fresh.query(POSITION).is_empty());
    assert!(fresh.query_mut(POSITION).is_empty());
}

#[test]
fn query_mut_writes_through_and_keeps_entities() {
    let mut w: World<Part> = World::new();
    for i in 0..3 {
        let e = w.create_entity();
        w.add_component(POSITION, e, Part::Position(i, 0));
    }
    let before = ids_of(&w.query(POSITION));
    for (e, v) in w.query_mut(POSITION) {
        *v = Part::Position(10 * e as i64, 1);
    }
    let after = ids_of(&w.query(POSITION));
    assert_eq!(before, after);
    for e in 0..3u32 {
        assert_eq!(w.get_component(POSITION, e), Some(&Part::Position(10 * e as i64, 1)));
    }
}

#[test]
fn get_component_mut_writes_through() {
    let mut w: World<Part> = World::new();
    let e = w.create_entity();
    w.add_component(POSITION, e, Part::Position(5, 5));
    if let Some(v) = w.get_component_mut(POSITION, e) {
        *v = Part::Position(6, 7);
    }
    assert_eq!(w.get_component(POSITION, e), Some(&Part::Position(6, 7)));
    assert!(w.get_component_mut(LABEL, e).is_none());
    assert!(w.get_component_mut(POSITION, e + 1).is_none());
}

#[test]
fn despawn_keeps_orphaned_components() {
    let mut w: World<Part> = World::new();
    let a = w.create_entity();
    let b = w.create_entity();
    w.add_component(LABEL, a, Part::Label("kept".to_string()));
    w.despawn(a);
    assert_eq!(w.entities(), &[b]);
    assert_eq!(w.get_component(LABEL, a), Some(&Part::Label("kept".to_string())));
    assert_eq!(ids_of(&w.query(LABEL)), vec![a]);
}

#[test]
fn despawn_of_absent_entity_changes_nothing() {
    let mut w: World<Part> = World::new();
    let a = w.create_entity();
    w.despawn(42);
    assert_eq!(w.entities(), &[a]);
}

#[test]
fn add_to_unallocated_entity_is_stored() {
    let mut w: World<Part> = World::new();
    w.add_component(POSITION, 12, Part::Position(1, 1));
    assert_eq!(w.get_component(POSITION, 12), Some(&Part::Position(1, 1)));
    assert!(w.entities().is_empty());
}

#[test]
fn builder_adds_each_component() {
    let mut w: World<Part> = World::new();
    let first = w.create_entity();
    let e = w
        .spawn()
        .with(POSITION, Part::Position(2, 3))
        .with(LABEL, Part::Label("box".to_string()))
        .build();
    assert_eq!(e, first + 1);
    assert_eq!(w.entities(), &[first, e]);
    assert_eq!(w.get_component(POSITION, e), Some(&Part::Position(2, 3)));
    assert_eq!(w.get_component(LABEL, e), Some(&Part::Label("box".to_string())));
}

#[test]
fn builder_id_matches_build() {
    let mut w: World<Part> = World::new();
    let b = w.spawn();
    let id = b.id();
    assert_eq!(b.build(), id);
}

#[test]
fn spawn_without_components_has_none() {
    let mut w: World<Part> = World::new();
    let e = w.spawn().build();
    assert_eq!(w.entities(), &[e]);
    for kind in [POSITION, LABEL, UNUSED] {
        assert_eq!(w.get_component(kind, e), None);
        assert!(!w.has_component(kind, e));
    }
}
