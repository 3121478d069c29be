//! The rules of a brick-breaker game's collisions.
//!
//! [`physics`] holds what decides a tick of the collision engine: the
//! categories of objects and the masks that say who collides with whom, the
//! registry that lists the pairs to test and turns the outcomes of the tests
//! into events, and the decisions by which an event is answered. [`game`]
//! holds what the game makes of the events: what is destroyed, what scores,
//! and how each kind of object is made.
//!
//! Everything here works on plain values. Positions, sizes, velocities and
//! the overlap tests on them are the caller's business: the library decides,
//! and the caller does the arithmetic.

pub mod game;
pub mod physics;
