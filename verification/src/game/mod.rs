//! What the game makes of the collisions of a tick.

pub mod destroy_on_collision;
mod entity_set;
pub mod objects;
pub mod occurrence;
pub mod paddle;
pub mod score;
