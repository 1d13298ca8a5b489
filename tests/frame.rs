use qsi::ecs::{Component, KindId, World};
use qsi::time::{Duration, TimeState};

const TRANSFORM: KindId = 0;
const VELOCITY: KindId = 1;

#[derive(Clone, Debug, PartialEq)]
struct Transform {
    position: [f32; 3],
    rotation: [f32; 3],
    scale: [f32; 3],
}

#[derive(Clone, Debug, PartialEq)]
struct Velocity {
    linear: [f32; 3],
    angular: [f32; 3],
}

#[derive(Clone, Debug, PartialEq)]
enum Body {
    Transform(Transform),
    Velocity(Velocity),
}

impl Component for Body {}

fn at_origin() -> Transform {
    Transform { position: [0.0; 3], rotation: [0.0; 3], scale: [1.0; 3] }
}

/// Moves every entity with a velocity and a transform: reads first, writes after.
fn physics_tick(world: &mut World<Body>, time: &TimeState) {
    let dt = time.delta().as_nanos() as f32 / 1_000_000_000.0;
    let mut updates = Vec::new();
    for (entity, value) in world.query(VELOCITY) {
        if let Body::Velocity(v) = value {
            if let Some(Body::Transform(t)) = world.get_component(TRANSFORM, entity) {
                let mut next = t.clone();
                for i in 0..3 {
                    next.position[i] += v.linear[i] * dt;
                    next.rotation[i] += v.angular[i] * dt;
                }
                updates.push((entity, next));
            }
        }
    }
    for (entity, t) in updates {
        world.add_component(TRANSFORM, entity, Body::Transform(t));
    }
}

#[test]
fn one_tick_moves_by_velocity_times_delta() {
    let mut world: World<Body> = World::new();
    let a = world
        .spawn()
        .with(TRANSFORM, Body::Transform(at_origin()))
        .with(VELOCITY, Body::Velocity(Velocity { linear: [1.0, 0.0, 0.0], angular: [0.0; 3] }))
        .build();
    let mut time = TimeState::new();
    time.update_at(Duration::from_millis(500));
    physics_tick(&mut world, &time);
    match world.get_component(TRANSFORM, a) {
        Some(Body::Transform(t)) => assert_eq!(t.position, [0.5, 0.0, 0.0]),
        other => panic!("unexpected {:?}", other),
    }
}

#[test]
fn tick_leaves_entities_without_velocity_alone() {
    let mut world: World<Body> = World::new();
    let still = world.spawn().with(TRANSFORM, Body::Transform(at_origin())).build();
    let mut time = TimeState::new();
    time.update_at(Duration::from_secs(1));
    physics_tick(&mut world, &time);
    assert_eq!(world.get_component(TRANSFORM, still), Some(&Body::Transform(at_origin())));
}
