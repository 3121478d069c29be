//! How a collision event is answered: how the correction is shared between
//! the two objects, and which of them has its velocity reflected.

use vstd::prelude::*;

verus! {

/// What a stage finds when it looks up one of the two objects of an event.
/// An object that was destroyed earlier in the tick is `Gone`; one that
/// carries a velocity is `Movable`; any other is `Static`.
#[derive(Debug, Clone, Copy, PartialEq, Eq, Structural)]
pub enum Mobility {
    Gone,
    Static,
    Movable,
}

/// The part of an event's correction vector by which one object is moved.
#[derive(Debug, Clone, Copy, PartialEq, Eq, Structural)]
pub enum Share {
    /// The object stays where it is.
    Nothing,
    /// Half of the vector.
    Half,
    /// Half of the vector, in the opposite direction.
    OppositeHalf,
    /// The whole vector.
    Full,
}

/// The shares of the first and of the second object of an event, or `None`
/// where the event is passed over because one of them is gone.
pub open spec fn spec_correction_shares(first: Mobility, second: Mobility) -> Option<
    (Share, Share),
> {
    match (first, second) {
        (Mobility::Gone, _) => None,
        (_, Mobility::Gone) => None,
        (Mobility::Movable, Mobility::Movable) => Some((Share::Half, Share::OppositeHalf)),
        (Mobility::Movable, Mobility::Static) => Some((Share::Full, Share::Nothing)),
        (Mobility::Static, Mobility::Movable) => Some((Share::Nothing, Share::Full)),
        (Mobility::Static, Mobility::Static) => Some((Share::Nothing, Share::Nothing)),
    }
}

/// Shares an event's correction vector between its two objects. Two movable
/// objects get half each, in opposite directions; a single movable object
/// gets the whole vector; static objects are never moved. An event with an
/// object that is gone is passed over.
#[verifier::when_used_as_spec(spec_correction_shares)]
pub fn correction_shares(first: Mobility, second: Mobility) -> (shares: Option<(Share, Share)>)
    ensures
        shares == spec_correction_shares(first, second),
{
    match (first, second) {
        (Mobility::Gone, _) => None,
        (_, Mobility::Gone) => None,
        (Mobility::Movable, Mobility::Movable) => Some((Share::Half, Share::OppositeHalf)),
        (Mobility::Movable, Mobility::Static) => Some((Share::Full, Share::Nothing)),
        (Mobility::Static, Mobility::Movable) => Some((Share::Nothing, Share::Full)),
        (Mobility::Static, Mobility::Static) => Some((Share::Nothing, Share::Nothing)),
    }
}

/// One of the two objects of an event.
#[derive(Debug, Clone, Copy, PartialEq, Eq, Structural)]
pub enum Side {
    First,
    Second,
}

/// Whether a reflection is defined for the event: both objects gone aside,
/// exactly one of the two must be movable.
pub open spec fn spec_supports_reflection(first: Mobility, second: Mobility) -> bool {
    first == Mobility::Gone || second == Mobility::Gone || ((first == Mobility::Movable) != (second
        == Mobility::Movable))
}

/// Whether a reflection is defined for the event. It is not where both
/// objects are movable or both are static.
#[verifier::when_used_as_spec(spec_supports_reflection)]
pub fn supports_reflection(first: Mobility, second: Mobility) -> (r: bool)
    ensures
        r == spec_supports_reflection(first, second),
{
    match (first, second) {
        (Mobility::Movable, Mobility::Movable) => false,
        (Mobility::Static, Mobility::Static) => false,
        _ => true,
    }
}

/// The object whose velocity is reflected, or `None` where the event is
/// passed over because one of its objects is gone.
pub open spec fn spec_reflected_side(first: Mobility, second: Mobility) -> Option<Side> {
    if first == Mobility::Gone || second == Mobility::Gone {
        None
    } else if first == Mobility::Movable {
        Some(Side::First)
    } else {
        Some(Side::Second)
    }
}

/// Picks the object whose velocity is reflected off the other: the movable
/// one of the two. An event with an object that is gone is passed over.
#[verifier::when_used_as_spec(spec_reflected_side)]
pub fn reflected_side(first: Mobility, second: Mobility) -> (side: Option<Side>)
    requires
        spec_supports_reflection(first, second),
    ensures
        side == spec_reflected_side(first, second),
        side == Some(Side::First) ==> first == Mobility::Movable && second == Mobility::Static,
        side == Some(Side::Second) ==> first == Mobility::Static && second == Mobility::Movable,
{
    match (first, second) {
        (Mobility::Gone, _) => None,
        (_, Mobility::Gone) => None,
        (Mobility::Movable, _) => Some(Side::First),
        (_, _) => Some(Side::Second),
    }
}

} // verus!
