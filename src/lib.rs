//! A small entity/component store with verified contracts.
//!
//! `ecs::World` keeps one table of component values per component kind,
//! keyed by entity; `ecs::EntityBuilder` adds components to a freshly created
//! entity; `model` states what every operation does and the laws the store
//! obeys; `time` tracks frame timing and timers.

pub mod ecs;
pub mod model;
pub mod prelude;
pub mod table;
pub mod time;
