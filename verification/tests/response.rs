use breakout_bevy::physics::curved_rect_bounce::{
    cardinal_of, impact_rule, is_cardinal, Axis, Cardinal, Component, ImpactRule,
};
use breakout_bevy::physics::response::{
    correction_shares, reflected_side, supports_reflection, Mobility, Share, Side,
};

#[test]
fn two_movable_objects_share_the_correction() {
    assert_eq!(
        correction_shares(Mobility::Movable, Mobility::Movable),
        Some((Share::Half, Share::OppositeHalf))
    );
}

#[test]
fn one_movable_object_takes_the_whole_correction() {
    assert_eq!(
        correction_shares(Mobility::Movable, Mobility::Static),
        Some((Share::Full, Share::Nothing))
    );
    assert_eq!(
        correction_shares(Mobility::Static, Mobility::Movable),
        Some((Share::Nothing, Share::Full))
    );
}

#[test]
fn static_objects_stay_put() {
    assert_eq!(
        correction_shares(Mobility::Static, Mobility::Static),
        Some((Share::Nothing, Share::Nothing))
    );
}

#[test]
fn correction_passes_over_an_event_with_a_gone_object() {
    for other in [Mobility::Gone, Mobility::Static, Mobility::Movable] {
        assert_eq!(correction_shares(Mobility::Gone, other), None);
        assert_eq!(correction_shares(other, Mobility::Gone), None);
    }
}

#[test]
fn reflection_needs_exactly_one_movable_object() {
    assert!(supports_reflection(Mobility::Movable, Mobility::Static));
    assert!(supports_reflection(Mobility::Static, Mobility::Movable));
    assert!(!supports_reflection(Mobility::Movable, Mobility::Movable));
    assert!(!supports_reflection(Mobility::Static, Mobility::Static));
    for other in [Mobility::Gone, Mobility::Static, Mobility::Movable] {
        assert!(supports_reflection(Mobility::Gone, other));
        assert!(supports_reflection(other, Mobility::Gone));
    }
}

#[test]
fn the_movable_object_is_reflected() {
    assert_eq!(
        reflected_side(Mobility::Movable, Mobility::Static),
        Some(Side::First)
    );
    assert_eq!(
        reflected_side(Mobility::Static, Mobility::Movable),
        Some(Side::Second)
    );
}

#[test]
fn reflection_passes_over_an_event_with_a_gone_object() {
    for other in [Mobility::Gone, Mobility::Static, Mobility::Movable] {
        assert_eq!(reflected_side(Mobility::Gone, other), None);
        assert_eq!(reflected_side(other, Mobility::Gone), None);
    }
}

#[test]
fn only_axis_aligned_normals_are_cardinal() {
    let all = [
        Component::MinusOne,
        Component::Zero,
        Component::One,
        Component::Other,
    ];
    let mut cardinal = 0;
    for x in all {
        for y in all {
            if is_cardinal(x, y) {
                cardinal += 1;
            }
        }
    }
    assert_eq!(cardinal, 4);
    assert!(is_cardinal(Component::One, Component::Zero));
    assert!(is_cardinal(Component::MinusOne, Component::Zero));
    assert!(is_cardinal(Component::Zero, Component::One));
    assert!(is_cardinal(Component::Zero, Component::MinusOne));
    assert!(!is_cardinal(Component::Zero, Component::Zero));
    assert!(!is_cardinal(Component::One, Component::One));
    assert!(!is_cardinal(Component::One, Component::Other));
    assert!(!is_cardinal(Component::Other, Component::Zero));
}

#[test]
fn cardinal_normals_have_their_direction() {
    assert_eq!(cardinal_of(Component::One, Component::Zero), Cardinal::PlusX);
    assert_eq!(
        cardinal_of(Component::MinusOne, Component::Zero),
        Cardinal::MinusX
    );
    assert_eq!(cardinal_of(Component::Zero, Component::One), Cardinal::PlusY);
    assert_eq!(
        cardinal_of(Component::Zero, Component::MinusOne),
        Cardinal::MinusY
    );
}

#[test]
fn impact_is_measured_across_the_normal() {
    assert_eq!(
        impact_rule(Cardinal::PlusX),
        ImpactRule {
            axis: Axis::Y,
            reversed: false
        }
    );
    assert_eq!(
        impact_rule(Cardinal::MinusX),
        ImpactRule {
            axis: Axis::Y,
            reversed: true
        }
    );
    assert_eq!(
        impact_rule(Cardinal::PlusY),
        ImpactRule {
            axis: Axis::X,
            reversed: false
        }
    );
    assert_eq!(
        impact_rule(Cardinal::MinusY),
        ImpactRule {
            axis: Axis::X,
            reversed: true
        }
    );
    for normal in [
        Cardinal::PlusX,
        Cardinal::MinusX,
        Cardinal::PlusY,
        Cardinal::MinusY,
    ] {
        assert_ne!(impact_rule(normal).axis, normal.axis());
        assert_eq!(impact_rule(normal.opposite()).axis, impact_rule(normal).axis);
        assert_ne!(
            impact_rule(normal.opposite()).reversed,
            impact_rule(normal).reversed
        );
        assert_eq!(normal.opposite().opposite(), normal);
    }
}
