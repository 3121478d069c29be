//! The kinds of objects in the game, and what each kind is given when it is
//! made: its collision properties and the marks that the game rules read.

use crate::game::destroy_on_collision::DestroyOnCollision;
use crate::game::score::ScoreOnCollision;
use crate::physics::collider::spec_may_collide;
use crate::physics::collision_properties::{
    CollisionBody, CollisionGroup, CollisionMask, CollisionProperties,
};
use vstd::prelude::*;

verus! {

/// The four walls around the arena.
#[derive(Debug, Clone, Copy, PartialEq, Eq, Structural)]
pub enum EdgeWallLocation {
    Left,
    Right,
    Bottom,
    Top,
}

/// The kinds of objects in the game.
#[derive(Debug, Clone, Copy, PartialEq, Eq, Structural)]
pub enum ObjectKind {
    Paddle,
    Ball,
    Brick,
    Wall(EdgeWallLocation),
}

impl ObjectKind {
    /// The outline of an object of this kind: the ball is a circle, all else
    /// is rectangles.
    pub open spec fn body(self) -> CollisionBody {
        match self {
            ObjectKind::Ball => CollisionBody::Circle,
            _ => CollisionBody::Rect,
        }
    }

    /// The categories that an object of this kind belongs to.
    pub open spec fn group(self) -> Set<CollisionGroup> {
        match self {
            ObjectKind::Paddle => set![CollisionGroup::Paddle],
            ObjectKind::Ball => set![CollisionGroup::Ball],
            ObjectKind::Brick => set![CollisionGroup::Block],
            ObjectKind::Wall(_) => set![CollisionGroup::Wall],
        }
    }

    /// The categories that an object of this kind collides with.
    pub open spec fn mask(self) -> Set<CollisionGroup> {
        match self {
            ObjectKind::Paddle => set![CollisionGroup::Ball, CollisionGroup::Powerup],
            ObjectKind::Ball => set![
                CollisionGroup::Block,
                CollisionGroup::Wall,
                CollisionGroup::Paddle,
            ],
            ObjectKind::Brick => set![CollisionGroup::Ball],
            ObjectKind::Wall(_) => set![CollisionGroup::Ball, CollisionGroup::Powerup],
        }
    }

    /// Whether `properties` are the collision properties of this kind.
    pub open spec fn has_properties(self, properties: CollisionProperties) -> bool {
        &&& properties.body == self.body()
        &&& properties.group@ == self.group()
        &&& properties.mask@ == self.mask()
    }

    /// The collision properties that an object of this kind is made with.
    pub fn collision_properties(self) -> (properties: CollisionProperties)
        ensures
            self.has_properties(properties),
    {
        match self {
            ObjectKind::Paddle => {
                let group = CollisionMask::new(&[CollisionGroup::Paddle]);
                let mask = CollisionMask::new(&[CollisionGroup::Ball, CollisionGroup::Powerup]);
                proof {
                    lemma_members_of_one([CollisionGroup::Paddle]@);
                    lemma_members_of_two([CollisionGroup::Ball, CollisionGroup::Powerup]@);
                }
                CollisionProperties { body: CollisionBody::Rect, group, mask }
            },
            ObjectKind::Ball => {
                let group = CollisionMask::new(&[CollisionGroup::Ball]);
                let mask = CollisionMask::new(
                    &[CollisionGroup::Block, CollisionGroup::Wall, CollisionGroup::Paddle],
                );
                proof {
                    lemma_members_of_one([CollisionGroup::Ball]@);
                    lemma_members_of_three(
                        [CollisionGroup::Block, CollisionGroup::Wall, CollisionGroup::Paddle]@,
                    );
                }
                CollisionProperties { body: CollisionBody::Circle, group, mask }
            },
            ObjectKind::Brick => {
                let group = CollisionMask::new(&[CollisionGroup::Block]);
                let mask = CollisionMask::new(&[CollisionGroup::Ball]);
                proof {
                    lemma_members_of_one([CollisionGroup::Block]@);
                    lemma_members_of_one([CollisionGroup::Ball]@);
                }
                CollisionProperties { body: CollisionBody::Rect, group, mask }
            },
            ObjectKind::Wall(_) => {
                let group = CollisionMask::new(&[CollisionGroup::Wall]);
                let mask = CollisionMask::new(&[CollisionGroup::Ball, CollisionGroup::Powerup]);
                proof {
                    lemma_members_of_one([CollisionGroup::Wall]@);
                    lemma_members_of_two([CollisionGroup::Ball, CollisionGroup::Powerup]@);
                }
                CollisionProperties { body: CollisionBody::Rect, group, mask }
            },
        }
    }

    /// What a collision with an object of this kind destroys.
    pub open spec fn spec_destroy_on_collision(self) -> Option<DestroyOnCollision> {
        match self {
            ObjectKind::Brick => Some(DestroyOnCollision::This),
            ObjectKind::Wall(EdgeWallLocation::Bottom) => Some(DestroyOnCollision::Other),
            _ => None,
        }
    }

    /// What a collision with an object of this kind destroys: a brick is
    /// destroyed itself, the bottom wall destroys what hits it, and nothing
    /// else destroys anything.
    #[verifier::when_used_as_spec(spec_destroy_on_collision)]
    pub fn destroy_on_collision(self) -> (mark: Option<DestroyOnCollision>)
        ensures
            mark == self.spec_destroy_on_collision(),
    {
        match self {
            ObjectKind::Brick => Some(DestroyOnCollision::This),
            ObjectKind::Wall(EdgeWallLocation::Bottom) => Some(DestroyOnCollision::Other),
            _ => None,
        }
    }

    /// What a collision with an object of this kind earns.
    pub open spec fn spec_score_on_collision(self) -> Option<ScoreOnCollision> {
        match self {
            ObjectKind::Brick => Some(ScoreOnCollision(1)),
            _ => None,
        }
    }

    /// What a collision with an object of this kind earns: one point for a
    /// brick, nothing for anything else.
    #[verifier::when_used_as_spec(spec_score_on_collision)]
    pub fn score_on_collision(self) -> (award: Option<ScoreOnCollision>)
        ensures
            award == self.spec_score_on_collision(),
    {
        match self {
            ObjectKind::Brick => Some(ScoreOnCollision(1)),
            _ => None,
        }
    }
}

/// The members of a list of one.
proof fn lemma_members_of_one(groups: Seq<CollisionGroup>)
    requires
        groups.len() == 1,
    ensures
        groups.to_set() == set![groups[0]],
{
    assert forall|g: CollisionGroup| groups.to_set().contains(g) == set![groups[0]].contains(g) by {
        if g == groups[0] {
            assert(groups.contains(groups[0]));
        }
    }
    assert(groups.to_set() =~= set![groups[0]]);
}

/// The members of a list of two.
proof fn lemma_members_of_two(groups: Seq<CollisionGroup>)
    requires
        groups.len() == 2,
    ensures
        groups.to_set() == set![groups[0], groups[1]],
{
    assert forall|g: CollisionGroup|
        groups.to_set().contains(g) == set![groups[0], groups[1]].contains(g) by {
        if g == groups[0] {
            assert(groups.contains(groups[0]));
        }
        if g == groups[1] {
            assert(groups.contains(groups[1]));
        }
    }
    assert(groups.to_set() =~= set![groups[0], groups[1]]);
}

/// The members of a list of three.
proof fn lemma_members_of_three(groups: Seq<CollisionGroup>)
    requires
        groups.len() == 3,
    ensures
        groups.to_set() == set![groups[0], groups[1], groups[2]],
{
    assert forall|g: CollisionGroup|
        groups.to_set().contains(g) == set![groups[0], groups[1], groups[2]].contains(g) by {
        if g == groups[0] {
            assert(groups.contains(groups[0]));
        }
        if g == groups[1] {
            assert(groups.contains(groups[1]));
        }
        if g == groups[2] {
            assert(groups.contains(groups[2]));
        }
    }
    assert(groups.to_set() =~= set![groups[0], groups[1], groups[2]]);
}

/// In this game everything collides with the ball and nothing else collides:
/// two objects may collide exactly when one of them is a ball and the other
/// is not.
pub proof fn lemma_only_the_ball_collides(
    a: ObjectKind,
    b: ObjectKind,
    of_a: CollisionProperties,
    of_b: CollisionProperties,
)
    requires
        a.has_properties(of_a),
        b.has_properties(of_b),
    ensures
        spec_may_collide(of_a, of_b) <==> ((a == ObjectKind::Ball) != (b == ObjectKind::Ball)),
{
    if (a == ObjectKind::Ball) != (b == ObjectKind::Ball) {
        let (ball, other) = if a == ObjectKind::Ball {
            (a, b)
        } else {
            (b, a)
        };
        let other_group = match other {
            ObjectKind::Paddle => CollisionGroup::Paddle,
            ObjectKind::Brick => CollisionGroup::Block,
            _ => CollisionGroup::Wall,
        };
        assert(ball.mask().contains(other_group) && other.group().contains(other_group));
        assert(other.mask().contains(CollisionGroup::Ball) && ball.group().contains(
            CollisionGroup::Ball,
        ));
    }
}

} // verus!
