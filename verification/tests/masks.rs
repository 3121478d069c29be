use breakout_bevy::physics::collision_properties::{
    CollisionBody, CollisionGroup, CollisionMask, CollisionProperties, COLLISION_GROUPS,
};

#[test]
fn groups_have_one_bit_each() {
    assert_eq!(CollisionGroup::Paddle.bit(), 1);
    assert_eq!(CollisionGroup::Ball.bit(), 2);
    assert_eq!(CollisionGroup::Block.bit(), 4);
    assert_eq!(CollisionGroup::Wall.bit(), 8);
    assert_eq!(CollisionGroup::Powerup.bit(), 16);
}

#[test]
fn groups_are_listed_in_declaration_order() {
    assert_eq!(
        COLLISION_GROUPS,
        [
            CollisionGroup::Paddle,
            CollisionGroup::Ball,
            CollisionGroup::Block,
            CollisionGroup::Wall,
            CollisionGroup::Powerup,
        ]
    );
}

#[test]
fn group_names() {
    assert_eq!(CollisionGroup::Paddle.name(), "Paddle");
    assert_eq!(CollisionGroup::Ball.name(), "Ball");
    assert_eq!(CollisionGroup::Block.name(), "Block");
    assert_eq!(CollisionGroup::Wall.name(), "Wall");
    assert_eq!(CollisionGroup::Powerup.name(), "Powerup");
}

#[test]
fn new_mask_holds_its_groups() {
    let mask = CollisionMask::new(&[CollisionGroup::Paddle, CollisionGroup::Ball]);
    assert!(mask.contains_group(CollisionGroup::Paddle));
    assert!(mask.contains_group(CollisionGroup::Ball));
    assert!(!mask.contains_group(CollisionGroup::Block));
    assert!(!mask.contains_group(CollisionGroup::Wall));
    assert!(!mask.contains_group(CollisionGroup::Powerup));
}

#[test]
fn new_mask_ignores_repeats_and_order() {
    let once = CollisionMask::new(&[CollisionGroup::Wall, CollisionGroup::Ball]);
    let twice = CollisionMask::new(&[
        CollisionGroup::Ball,
        CollisionGroup::Wall,
        CollisionGroup::Ball,
    ]);
    assert_eq!(once, twice);
}

#[test]
fn empty_mask_holds_nothing() {
    let empty = CollisionMask::new(&[]);
    assert_eq!(empty, CollisionMask::default());
    for group in COLLISION_GROUPS {
        assert!(!empty.contains_group(group));
    }
}

#[test]
fn with_adds_one_group() {
    let mask = CollisionMask::default().with(CollisionGroup::Block);
    assert_eq!(mask, CollisionMask::new(&[CollisionGroup::Block]));
    let again = mask.with(CollisionGroup::Block);
    assert_eq!(again, mask);
    let more = mask.with(CollisionGroup::Powerup);
    assert_eq!(
        more,
        CollisionMask::new(&[CollisionGroup::Block, CollisionGroup::Powerup])
    );
}

#[test]
fn without_takes_one_group_out() {
    let mask = CollisionMask::new(&[CollisionGroup::Block, CollisionGroup::Powerup]);
    assert_eq!(
        mask.without(CollisionGroup::Block),
        CollisionMask::new(&[CollisionGroup::Powerup])
    );
    assert_eq!(mask.without(CollisionGroup::Wall), mask);
    assert_eq!(
        mask.without(CollisionGroup::Block).without(CollisionGroup::Powerup),
        CollisionMask::default()
    );
}

#[test]
fn contains_tells_whether_masks_share_a_group() {
    let ball = CollisionMask::new(&[CollisionGroup::Ball]);
    let paddle_mask = CollisionMask::new(&[CollisionGroup::Ball, CollisionGroup::Powerup]);
    let brick = CollisionMask::new(&[CollisionGroup::Block]);
    assert!(paddle_mask.contains(&ball));
    assert!(ball.contains(&paddle_mask));
    assert!(!paddle_mask.contains(&brick));
    assert!(!brick.contains(&ball));
    assert!(!CollisionMask::default().contains(&ball));
    assert!(!ball.contains(&CollisionMask::default()));
    assert!(!CollisionMask::default().contains(&CollisionMask::default()));
}

#[test]
fn every_single_group_is_told_apart() {
    for a in COLLISION_GROUPS {
        for b in COLLISION_GROUPS {
            let left = CollisionMask::new(&[a]);
            let right = CollisionMask::new(&[b]);
            assert_eq!(left.contains(&right), a == b);
            assert_eq!(left.contains_group(b), a == b);
            assert_eq!(left.with(b).without(b).contains_group(a), a != b);
        }
    }
}

#[test]
fn mask_text_lists_groups_in_declaration_order() {
    let mask = CollisionMask::new(&[CollisionGroup::Wall, CollisionGroup::Paddle]);
    assert_eq!(mask.to_string(), "CollisionMask(Paddle | Wall)");
    assert_eq!(CollisionMask::default().to_string(), "CollisionMask()");
    assert_eq!(
        CollisionMask::new(&[CollisionGroup::Ball]).to_string(),
        "CollisionMask(Ball)"
    );
    assert_eq!(
        CollisionMask::new(&COLLISION_GROUPS).to_string(),
        "CollisionMask(Paddle | Ball | Block | Wall | Powerup)"
    );
}

#[test]
fn default_body_is_a_rectangle() {
    assert_eq!(CollisionBody::default(), CollisionBody::Rect);
}

#[test]
fn default_properties_collide_with_nothing() {
    let properties = CollisionProperties::default();
    assert_eq!(properties.body, CollisionBody::Rect);
    assert_eq!(properties.group, CollisionMask::default());
    assert_eq!(properties.mask, CollisionMask::default());
}
