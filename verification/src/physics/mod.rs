//! Detection of collisions and the decisions that answer them.

pub mod collider;
pub mod collision_properties;
pub mod curved_rect_bounce;
pub mod response;
