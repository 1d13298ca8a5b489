//! The items most programs need, for a single `use`.

pub use crate::ecs::{Component, EntityBuilder, EntityId, KindId, World};
pub use crate::time::{Duration, TimeState, Timer};
