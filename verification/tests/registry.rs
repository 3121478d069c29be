use breakout_bevy::physics::collider::{
    collision_candidates, collision_events, may_collide, shape_test, swapped, Candidate,
    Collider, CollisionEvent, ShapeTest,
};
use breakout_bevy::physics::collision_properties::{
    CollisionBody, CollisionGroup, CollisionMask, CollisionProperties,
};

fn properties(
    body: CollisionBody,
    group: &[CollisionGroup],
    mask: &[CollisionGroup],
) -> CollisionProperties {
    CollisionProperties {
        body,
        group: CollisionMask::new(group),
        mask: CollisionMask::new(mask),
    }
}

fn ball(entity: u64) -> Collider {
    Collider {
        entity,
        properties: properties(
            CollisionBody::Circle,
            &[CollisionGroup::Ball],
            &[CollisionGroup::Block, CollisionGroup::Wall, CollisionGroup::Paddle],
        ),
    }
}

fn brick(entity: u64) -> Collider {
    Collider {
        entity,
        properties: properties(
            CollisionBody::Rect,
            &[CollisionGroup::Block],
            &[CollisionGroup::Ball],
        ),
    }
}

fn wall(entity: u64) -> Collider {
    Collider {
        entity,
        properties: properties(
            CollisionBody::Rect,
            &[CollisionGroup::Wall],
            &[CollisionGroup::Ball, CollisionGroup::Powerup],
        ),
    }
}

#[test]
fn filter_needs_a_match_in_both_directions() {
    let ball = ball(1).properties;
    let brick = brick(2).properties;
    assert!(may_collide(ball, brick));
    assert!(may_collide(brick, ball));

    let deaf_brick = properties(CollisionBody::Rect, &[CollisionGroup::Block], &[]);
    assert!(ball.mask.contains(&deaf_brick.group));
    assert!(!deaf_brick.mask.contains(&ball.group));
    assert!(!may_collide(ball, deaf_brick));
    assert!(!may_collide(deaf_brick, ball));

    let wall = wall(3).properties;
    assert!(!may_collide(brick, wall));
    assert!(!may_collide(ball, ball));
}

#[test]
fn only_circle_before_rectangle_changes_places() {
    assert!(swapped(CollisionBody::Circle, CollisionBody::Rect));
    assert!(!swapped(CollisionBody::Rect, CollisionBody::Circle));
    assert!(!swapped(CollisionBody::Rect, CollisionBody::Rect));
    assert!(!swapped(CollisionBody::Circle, CollisionBody::Circle));
}

#[test]
fn each_pair_of_outlines_has_its_test() {
    assert_eq!(
        shape_test(CollisionBody::Rect, CollisionBody::Rect),
        ShapeTest::RectRect
    );
    assert_eq!(
        shape_test(CollisionBody::Rect, CollisionBody::Circle),
        ShapeTest::RectCircle
    );
    assert_eq!(
        shape_test(CollisionBody::Circle, CollisionBody::Rect),
        ShapeTest::RectCircle
    );
    assert_eq!(
        shape_test(CollisionBody::Circle, CollisionBody::Circle),
        ShapeTest::CircleCircle
    );
}

#[test]
fn no_colliders_no_candidates() {
    assert_eq!(collision_candidates(&vec![]), vec![]);
    assert_eq!(collision_candidates(&vec![ball(7)]), vec![]);
}

#[test]
fn candidates_come_row_by_row_with_the_rectangle_first() {
    let table = vec![ball(10), brick(20), wall(30), ball(40), brick(50)];
    let candidates = collision_candidates(&table);
    assert_eq!(
        candidates,
        vec![
            Candidate {
                first: 1,
                second: 0,
                collidees: [20, 10],
                test: ShapeTest::RectCircle
            },
            Candidate {
                first: 2,
                second: 0,
                collidees: [30, 10],
                test: ShapeTest::RectCircle
            },
            Candidate {
                first: 4,
                second: 0,
                collidees: [50, 10],
                test: ShapeTest::RectCircle
            },
            Candidate {
                first: 1,
                second: 3,
                collidees: [20, 40],
                test: ShapeTest::RectCircle
            },
            Candidate {
                first: 2,
                second: 3,
                collidees: [30, 40],
                test: ShapeTest::RectCircle
            },
            Candidate {
                first: 4,
                second: 3,
                collidees: [50, 40],
                test: ShapeTest::RectCircle
            },
        ]
    );
}

#[test]
fn same_outlines_keep_their_order() {
    let everything = [
        CollisionGroup::Paddle,
        CollisionGroup::Ball,
        CollisionGroup::Block,
        CollisionGroup::Wall,
        CollisionGroup::Powerup,
    ];
    let rect = |entity| Collider {
        entity,
        properties: properties(CollisionBody::Rect, &everything, &everything),
    };
    let circle = |entity| Collider {
        entity,
        properties: properties(CollisionBody::Circle, &everything, &everything),
    };
    let table = vec![circle(1), circle(2), rect(3), rect(4)];
    assert_eq!(
        collision_candidates(&table),
        vec![
            Candidate {
                first: 0,
                second: 1,
                collidees: [1, 2],
                test: ShapeTest::CircleCircle
            },
            Candidate {
                first: 2,
                second: 0,
                collidees: [3, 1],
                test: ShapeTest::RectCircle
            },
            Candidate {
                first: 3,
                second: 0,
                collidees: [4, 1],
                test: ShapeTest::RectCircle
            },
            Candidate {
                first: 2,
                second: 1,
                collidees: [3, 2],
                test: ShapeTest::RectCircle
            },
            Candidate {
                first: 3,
                second: 1,
                collidees: [4, 2],
                test: ShapeTest::RectCircle
            },
            Candidate {
                first: 2,
                second: 3,
                collidees: [3, 4],
                test: ShapeTest::RectRect
            },
        ]
    );
}

#[test]
fn a_one_way_match_makes_no_candidate() {
    let deaf_brick = Collider {
        entity: 2,
        properties: properties(CollisionBody::Rect, &[CollisionGroup::Block], &[]),
    };
    let blind_ball = Collider {
        entity: 3,
        properties: properties(
            CollisionBody::Circle,
            &[CollisionGroup::Ball],
            &[CollisionGroup::Wall],
        ),
    };
    assert_eq!(collision_candidates(&vec![ball(1), deaf_brick]), vec![]);
    assert_eq!(collision_candidates(&vec![blind_ball, brick(4)]), vec![]);
    assert_eq!(
        collision_candidates(&vec![blind_ball, brick(4), wall(5)]),
        vec![Candidate {
            first: 2,
            second: 0,
            collidees: [5, 3],
            test: ShapeTest::RectCircle
        }]
    );
}

#[test]
fn detection_gives_the_same_answer_twice() {
    let table = vec![ball(10), brick(20), wall(30), ball(40), brick(50)];
    let once = collision_candidates(&table);
    let twice = collision_candidates(&table);
    assert_eq!(once, twice);
    let results = vec![Some(1u8), None, Some(3), None, None, Some(6)];
    assert_eq!(
        collision_events(&once, &results),
        collision_events(&twice, &results)
    );
}

#[test]
fn no_two_candidates_name_the_same_two_rows() {
    let table = vec![ball(1), brick(2), ball(3), wall(4), brick(5), ball(6)];
    let candidates = collision_candidates(&table);
    for (k, a) in candidates.iter().enumerate() {
        assert_ne!(a.first, a.second);
        for b in candidates.iter().skip(k + 1) {
            assert!(!(a.first == b.first && a.second == b.second));
            assert!(!(a.first == b.second && a.second == b.first));
        }
    }
    assert_eq!(candidates.len(), 9);
}

#[test]
fn events_follow_the_overlaps_in_order() {
    let table = vec![ball(10), brick(20), wall(30)];
    let candidates = collision_candidates(&table);
    assert_eq!(candidates.len(), 2);
    assert_eq!(
        collision_events(&candidates, &vec![Some('a'), Some('b')]),
        vec![
            CollisionEvent {
                collidees: [20, 10],
                collision_result: 'a'
            },
            CollisionEvent {
                collidees: [30, 10],
                collision_result: 'b'
            },
        ]
    );
    assert_eq!(
        collision_events(&candidates, &vec![None, Some('b')]),
        vec![CollisionEvent {
            collidees: [30, 10],
            collision_result: 'b'
        }]
    );
    assert_eq!(
        collision_events(&candidates, &vec![None::<char>, None]),
        vec![]
    );
}

#[test]
fn a_candidate_without_an_outcome_yields_no_event() {
    let table = vec![ball(10), brick(20), wall(30)];
    let candidates = collision_candidates(&table);
    assert_eq!(
        collision_events(&candidates, &vec![Some(1)]),
        vec![CollisionEvent {
            collidees: [20, 10],
            collision_result: 1
        }]
    );
    assert_eq!(
        collision_events(&candidates, &vec![None, Some(2), Some(3), Some(4)]),
        vec![CollisionEvent {
            collidees: [30, 10],
            collision_result: 2
        }]
    );
    assert_eq!(collision_events(&vec![], &vec![Some(1)]), vec![]);
}
