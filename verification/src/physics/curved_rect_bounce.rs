//! The curved surface: where on an axis-aligned surface an impact is
//! measured, and with which sign, for each direction the collision normal
//! can have.

use vstd::prelude::*;

verus! {

/// How one component of a collision normal compares with -1, 0 and 1.
#[derive(Debug, Clone, Copy, PartialEq, Eq, Structural)]
pub enum Component {
    MinusOne,
    Zero,
    One,
    Other,
}

/// The four directions along the axes.
#[derive(Debug, Clone, Copy, PartialEq, Eq, Structural)]
pub enum Cardinal {
    PlusX,
    MinusX,
    PlusY,
    MinusY,
}

/// One of the two axes.
#[derive(Debug, Clone, Copy, PartialEq, Eq, Structural)]
pub enum Axis {
    X,
    Y,
}

/// How the impact ratio is measured: along `axis`, as the surface's
/// coordinate minus the other object's, divided by half the surface's extent
/// on that axis; where `reversed` is set, as the other object's coordinate
/// minus the surface's.
#[derive(Debug, Clone, Copy, PartialEq, Eq, Structural)]
pub struct ImpactRule {
    pub axis: Axis,
    pub reversed: bool,
}

impl Cardinal {
    /// The axis along which the direction points.
    pub open spec fn spec_axis(self) -> Axis {
        match self {
            Cardinal::PlusX | Cardinal::MinusX => Axis::X,
            Cardinal::PlusY | Cardinal::MinusY => Axis::Y,
        }
    }

    /// The axis along which the direction points.
    #[verifier::when_used_as_spec(spec_axis)]
    pub fn axis(self) -> (axis: Axis)
        ensures
            axis == self.spec_axis(),
    {
        match self {
            Cardinal::PlusX | Cardinal::MinusX => Axis::X,
            Cardinal::PlusY | Cardinal::MinusY => Axis::Y,
        }
    }

    /// The direction that points the other way.
    pub open spec fn spec_opposite(self) -> Cardinal {
        match self {
            Cardinal::PlusX => Cardinal::MinusX,
            Cardinal::MinusX => Cardinal::PlusX,
            Cardinal::PlusY => Cardinal::MinusY,
            Cardinal::MinusY => Cardinal::PlusY,
        }
    }

    /// The direction that points the other way.
    #[verifier::when_used_as_spec(spec_opposite)]
    pub fn opposite(self) -> (direction: Cardinal)
        ensures
            direction == self.spec_opposite(),
    {
        match self {
            Cardinal::PlusX => Cardinal::MinusX,
            Cardinal::MinusX => Cardinal::PlusX,
            Cardinal::PlusY => Cardinal::MinusY,
            Cardinal::MinusY => Cardinal::PlusY,
        }
    }
}

/// Whether a normal with these components points along an axis: one
/// component is 1 or -1 and the other is 0.
pub open spec fn spec_is_cardinal(x: Component, y: Component) -> bool {
    ((x == Component::One || x == Component::MinusOne) && y == Component::Zero) || (x
        == Component::Zero && (y == Component::One || y == Component::MinusOne))
}

/// Whether a normal with these components points along an axis. A curved
/// surface can only answer such a normal.
#[verifier::when_used_as_spec(spec_is_cardinal)]
pub fn is_cardinal(x: Component, y: Component) -> (r: bool)
    ensures
        r == spec_is_cardinal(x, y),
{
    match (x, y) {
        (Component::One, Component::Zero) => true,
        (Component::MinusOne, Component::Zero) => true,
        (Component::Zero, Component::One) => true,
        (Component::Zero, Component::MinusOne) => true,
        _ => false,
    }
}

/// The direction of a normal that points along an axis.
pub open spec fn spec_cardinal_of(x: Component, y: Component) -> Cardinal {
    if x == Component::One {
        Cardinal::PlusX
    } else if x == Component::MinusOne {
        Cardinal::MinusX
    } else if y == Component::One {
        Cardinal::PlusY
    } else {
        Cardinal::MinusY
    }
}

/// The direction of a normal that points along an axis.
#[verifier::when_used_as_spec(spec_cardinal_of)]
pub fn cardinal_of(x: Component, y: Component) -> (direction: Cardinal)
    requires
        spec_is_cardinal(x, y),
    ensures
        direction == spec_cardinal_of(x, y),
        direction == Cardinal::PlusX <==> x == Component::One && y == Component::Zero,
        direction == Cardinal::MinusX <==> x == Component::MinusOne && y == Component::Zero,
        direction == Cardinal::PlusY <==> x == Component::Zero && y == Component::One,
        direction == Cardinal::MinusY <==> x == Component::Zero && y == Component::MinusOne,
{
    match (x, y) {
        (Component::One, _) => Cardinal::PlusX,
        (Component::MinusOne, _) => Cardinal::MinusX,
        (_, Component::One) => Cardinal::PlusY,
        (_, _) => Cardinal::MinusY,
    }
}

/// How the impact ratio is measured for a normal in the given direction.
pub open spec fn spec_impact_rule(normal: Cardinal) -> ImpactRule {
    match normal {
        Cardinal::PlusX => ImpactRule { axis: Axis::Y, reversed: false },
        Cardinal::MinusX => ImpactRule { axis: Axis::Y, reversed: true },
        Cardinal::PlusY => ImpactRule { axis: Axis::X, reversed: false },
        Cardinal::MinusY => ImpactRule { axis: Axis::X, reversed: true },
    }
}

/// How the impact ratio is measured for a normal in the given direction:
/// along the other axis, and with the sign reversed for a normal that points
/// in the negative direction.
#[verifier::when_used_as_spec(spec_impact_rule)]
pub fn impact_rule(normal: Cardinal) -> (rule: ImpactRule)
    ensures
        rule == spec_impact_rule(normal),
{
    match normal {
        Cardinal::PlusX => ImpactRule { axis: Axis::Y, reversed: false },
        Cardinal::MinusX => ImpactRule { axis: Axis::Y, reversed: true },
        Cardinal::PlusY => ImpactRule { axis: Axis::X, reversed: false },
        Cardinal::MinusY => ImpactRule { axis: Axis::X, reversed: true },
    }
}

/// The impact is measured across the normal, never along it, and opposite
/// normals measure it on the same axis with opposite signs.
pub proof fn lemma_impact_rule_symmetry(normal: Cardinal)
    ensures
        spec_impact_rule(normal).axis != normal.spec_axis(),
        spec_impact_rule(normal.spec_opposite()).axis == spec_impact_rule(normal).axis,
        spec_impact_rule(normal.spec_opposite()).reversed == !spec_impact_rule(normal).reversed,
{
}

} // verus!
