//! Steering the paddle.

use vstd::prelude::*;

verus! {

/// The way the paddle is steered.
#[derive(Debug, Clone, Copy, PartialEq, Eq, Structural)]
pub enum Steering {
    Left,
    Right,
}

/// The way the paddle is steered for the state of the two arrow keys, or
/// `None` where it stays put.
pub open spec fn spec_steering(left_pressed: bool, right_pressed: bool) -> Option<Steering> {
    if left_pressed {
        Some(Steering::Left)
    } else if right_pressed {
        Some(Steering::Right)
    } else {
        None
    }
}

/// Reads the two arrow keys: the paddle goes left while the left key is
/// down, whatever the right key does; right while only the right key is
/// down; and stays put while neither is.
#[verifier::when_used_as_spec(spec_steering)]
pub fn steering(left_pressed: bool, right_pressed: bool) -> (way: Option<Steering>)
    ensures
        way == spec_steering(left_pressed, right_pressed),
{
    if left_pressed {
        Some(Steering::Left)
    } else if right_pressed {
        Some(Steering::Right)
    } else {
        None
    }
}

} // verus!
