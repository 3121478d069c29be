//! Collision categories, masks over them, and the properties of a collidable
//! object.

use vstd::prelude::*;
use vstd::string::*;

verus! {

/// The categories of game objects that take part in collisions.
#[derive(Debug, Clone, Copy, PartialEq, Eq, Hash, Structural)]
pub enum CollisionGroup {
    Paddle,
    Ball,
    Block,
    Wall,
    Powerup,
}

/// Every category, in declaration order.
pub const COLLISION_GROUPS: [CollisionGroup; 5] = [
    CollisionGroup::Paddle,
    CollisionGroup::Ball,
    CollisionGroup::Block,
    CollisionGroup::Wall,
    CollisionGroup::Powerup,
];

/// Every category, in declaration order, as a sequence.
pub open spec fn all_groups() -> Seq<CollisionGroup> {
    seq![
        CollisionGroup::Paddle,
        CollisionGroup::Ball,
        CollisionGroup::Block,
        CollisionGroup::Wall,
        CollisionGroup::Powerup,
    ]
}

impl CollisionGroup {
    /// The single bit that stands for this category in a mask.
    pub open spec fn spec_bit(self) -> u16 {
        match self {
            CollisionGroup::Paddle => 1,
            CollisionGroup::Ball => 2,
            CollisionGroup::Block => 4,
            CollisionGroup::Wall => 8,
            CollisionGroup::Powerup => 16,
        }
    }

    /// The single bit that stands for this category in a mask.
    #[verifier::when_used_as_spec(spec_bit)]
    pub fn bit(self) -> (b: u16)
        ensures
            b == self.spec_bit(),
    {
        match self {
            CollisionGroup::Paddle => 1,
            CollisionGroup::Ball => 2,
            CollisionGroup::Block => 4,
            CollisionGroup::Wall => 8,
            CollisionGroup::Powerup => 16,
        }
    }

    /// The category's name as it is written in text.
    pub open spec fn spec_name(self) -> Seq<char> {
        match self {
            CollisionGroup::Paddle => "Paddle"@,
            CollisionGroup::Ball => "Ball"@,
            CollisionGroup::Block => "Block"@,
            CollisionGroup::Wall => "Wall"@,
            CollisionGroup::Powerup => "Powerup"@,
        }
    }

    /// The category's name as it is written in text.
    pub fn name(self) -> (n: &'static str)
        ensures
            n@ == self.spec_name(),
    {
        match self {
            CollisionGroup::Paddle => "Paddle",
            CollisionGroup::Ball => "Ball",
            CollisionGroup::Block => "Block",
            CollisionGroup::Wall => "Wall",
            CollisionGroup::Powerup => "Powerup",
        }
    }
}

/// The names of `groups`, in order, with `" | "` between neighbours.
pub open spec fn joined_names(groups: Seq<CollisionGroup>) -> Seq<char>
    decreases groups.len(),
{
    if groups.len() == 0 {
        Seq::empty()
    } else if groups.len() == 1 {
        groups[0].spec_name()
    } else {
        joined_names(groups.drop_last()) + " | "@ + groups.last().spec_name()
    }
}

/// The text form of a set of categories: its members in declaration order,
/// separated by `" | "`, inside `CollisionMask(` and `)`.
pub open spec fn mask_text(members: Set<CollisionGroup>) -> Seq<char> {
    "CollisionMask("@ + joined_names(all_groups().filter(|g: CollisionGroup| members.contains(g)))
        + ")"@
}

/// A set of collision categories, held as one bit per category.
#[derive(Debug, Clone, Copy, PartialEq, Eq, Hash, Structural)]
pub struct CollisionMask(u16);

impl View for CollisionMask {
    type V = Set<CollisionGroup>;

    /// The categories whose bit is set.
    closed spec fn view(&self) -> Set<CollisionGroup> {
        Set::new(|g: CollisionGroup| self.0 & g.spec_bit() != 0)
    }
}

impl CollisionMask {
    /// Only the five category bits are ever set.
    #[verifier::type_invariant]
    pub closed spec fn well_formed(self) -> bool {
        self.0 < 32
    }

    /// Whether the two masks have a category in common.
    pub open spec fn intersects(self, other: CollisionMask) -> bool {
        exists|g: CollisionGroup| #[trigger] self@.contains(g) && other@.contains(g)
    }

    /// The mask that holds exactly the categories listed in `groups`.
    pub fn new(groups: &[CollisionGroup]) -> (mask: Self)
        ensures
            mask@ == groups@.to_set(),
    {
        let mut mask = CollisionMask(0);
        assert(mask@ =~= Set::empty()) by {
            assert forall|g: CollisionGroup| !mask@.contains(g) by {
                let c = g.spec_bit();
                assert(0u16 & c == 0) by (bit_vector);
            }
        }
        let mut i: usize = 0;
        assert(groups@.take(0).to_set() =~= Set::empty());
        while i < groups.len()
            invariant
                i <= groups.len(),
                mask@ == groups@.take(i as int).to_set(),
            decreases groups.len() - i,
        {
            mask = mask.with(groups[i]);
            proof {
                groups@.lemma_take_succ_push(i as int);
                groups@.take(i as int).lemma_push_to_set_commute(groups@[i as int]);
            }
            i += 1;
        }
        proof {
            groups@.lemma_take_len();
        }
        mask
    }

    /// The mask with `group` added.
    pub fn with(self, group: CollisionGroup) -> (r: Self)
        ensures
            r@ == self@.insert(group),
    {
        proof {
            use_type_invariant(&self);
        }
        let b = group.bit();
        let m = self.0;
        assert((m | b) < 32) by (bit_vector)
            requires
                m < 32,
                b == 1 || b == 2 || b == 4 || b == 8 || b == 16,
        ;
        let r = CollisionMask(m | b);
        proof {
            assert forall|g: CollisionGroup| r@.contains(g) == self@.insert(group).contains(g) by {
                let c = g.spec_bit();
                assert(((m | b) & c != 0) == ((m & c != 0) || b == c)) by (bit_vector)
                    requires
                        b == 1 || b == 2 || b == 4 || b == 8 || b == 16,
                        c == 1 || c == 2 || c == 4 || c == 8 || c == 16,
                ;
            }
            assert(r@ =~= self@.insert(group));
        }
        r
    }

    /// The mask with `group` taken out.
    pub fn without(self, group: CollisionGroup) -> (r: Self)
        ensures
            r@ == self@.remove(group),
    {
        proof {
            use_type_invariant(&self);
        }
        let b = group.bit();
        let m = self.0;
        assert((m & !b) < 32) by (bit_vector)
            requires
                m < 32,
        ;
        let r = CollisionMask(m & !b);
        proof {
            assert forall|g: CollisionGroup| r@.contains(g) == self@.remove(group).contains(g) by {
                let c = g.spec_bit();
                assert(((m & !b) & c != 0) == ((m & c != 0) && b != c)) by (bit_vector)
                    requires
                        b == 1 || b == 2 || b == 4 || b == 8 || b == 16,
                        c == 1 || c == 2 || c == 4 || c == 8 || c == 16,
                ;
            }
            assert(r@ =~= self@.remove(group));
        }
        r
    }

    /// Whether the two masks have a category in common.
    pub fn contains(&self, other: &CollisionMask) -> (r: bool)
        ensures
            r == self.intersects(*other),
    {
        proof {
            use_type_invariant(self);
            use_type_invariant(other);
        }
        let m = self.0;
        let o = other.0;
        proof {
            if m & o != 0 {
                assert((m & 1 != 0 && o & 1 != 0) || (m & 2 != 0 && o & 2 != 0) || (m & 4 != 0 && o
                    & 4 != 0) || (m & 8 != 0 && o & 8 != 0) || (m & 16 != 0 && o & 16 != 0))
                    by (bit_vector)
                    requires
                        m & o != 0,
                        m < 32,
                ;
                let g = if m & 1 != 0 && o & 1 != 0 {
                    CollisionGroup::Paddle
                } else if m & 2 != 0 && o & 2 != 0 {
                    CollisionGroup::Ball
                } else if m & 4 != 0 && o & 4 != 0 {
                    CollisionGroup::Block
                } else if m & 8 != 0 && o & 8 != 0 {
                    CollisionGroup::Wall
                } else {
                    CollisionGroup::Powerup
                };
                assert(self@.contains(g) && other@.contains(g));
            } else {
                assert forall|g: CollisionGroup| !(self@.contains(g) && other@.contains(g)) by {
                    let c = g.spec_bit();
                    assert(!(m & c != 0 && o & c != 0)) by (bit_vector)
                        requires
                            m & o == 0,
                            c == 1 || c == 2 || c == 4 || c == 8 || c == 16,
                    ;
                }
            }
        }
        m & o != 0
    }

    /// Whether `group` is in the mask.
    pub fn contains_group(&self, group: CollisionGroup) -> (r: bool)
        ensures
            r == self@.contains(group),
    {
        self.0 & group.bit() != 0
    }

    /// The text form of the mask: its categories in declaration order,
    /// separated by `" | "`, inside `CollisionMask(` and `)`.
    pub fn to_string(&self) -> (text: String)
        ensures
            text@ == mask_text(self@),
    {
        let ghost member = |g: CollisionGroup| self@.contains(g);
        let mut text = String::from_str("CollisionMask(");
        let mut names = String::new();
        let mut empty = true;
        let mut i: usize = 0;
        proof {
            assert(COLLISION_GROUPS@ =~= all_groups());
            assert(all_groups().take(0) =~= Seq::empty());
            reveal_with_fuel(Seq::filter, 1);
            assert(names@ =~= joined_names(all_groups().take(0).filter(member)));
        }
        while i < 5
            invariant
                i <= 5,
                COLLISION_GROUPS@ == all_groups(),
                member == (|g: CollisionGroup| self@.contains(g)),
                names@ == joined_names(all_groups().take(i as int).filter(member)),
                empty == (all_groups().take(i as int).filter(member).len() == 0),
            decreases 5 - i,
        {
            let group = COLLISION_GROUPS[i];
            proof {
                all_groups().lemma_take_succ_push(i as int);
                all_groups().take(i as int).lemma_filter_push(group, member);
            }
            if self.contains_group(group) {
                let ghost before = all_groups().take(i as int).filter(member);
                assert(before.push(group).drop_last() =~= before);
                if !empty {
                    names.append(" | ");
                }
                names.append(group.name());
                empty = false;
            }
            i += 1;
        }
        proof {
            all_groups().lemma_take_len();
        }
        text.append(names.as_str());
        text.append(")");
        text
    }
}

/// A mask is determined by the categories it holds: two masks with the same
/// members are the same mask.
pub proof fn lemma_same_members_same_mask(a: CollisionMask, b: CollisionMask)
    requires
        a.well_formed(),
        b.well_formed(),
        a@ == b@,
    ensures
        a == b,
{
    let m = a.0;
    let o = b.0;
    assert(a@.contains(CollisionGroup::Paddle) == (m & 1 != 0));
    assert(b@.contains(CollisionGroup::Paddle) == (o & 1 != 0));
    assert(a@.contains(CollisionGroup::Ball) == (m & 2 != 0));
    assert(b@.contains(CollisionGroup::Ball) == (o & 2 != 0));
    assert(a@.contains(CollisionGroup::Block) == (m & 4 != 0));
    assert(b@.contains(CollisionGroup::Block) == (o & 4 != 0));
    assert(a@.contains(CollisionGroup::Wall) == (m & 8 != 0));
    assert(b@.contains(CollisionGroup::Wall) == (o & 8 != 0));
    assert(a@.contains(CollisionGroup::Powerup) == (m & 16 != 0));
    assert(b@.contains(CollisionGroup::Powerup) == (o & 16 != 0));
    assert(m == o) by (bit_vector)
        requires
            m < 32,
            o < 32,
            (m & 1 != 0) == (o & 1 != 0),
            (m & 2 != 0) == (o & 2 != 0),
            (m & 4 != 0) == (o & 4 != 0),
            (m & 8 != 0) == (o & 8 != 0),
            (m & 16 != 0) == (o & 16 != 0),
    ;
}

impl Default for CollisionMask {
    /// The mask that holds no category.
    fn default() -> (mask: Self)
        ensures
            mask@ == Set::<CollisionGroup>::empty(),
    {
        CollisionMask::new(&[])
    }
}

/// The outline of a collidable object.
#[derive(Debug, Clone, Copy, PartialEq, Eq, Structural)]
pub enum CollisionBody {
    Rect,
    Circle,
}

impl Default for CollisionBody {
    /// A rectangle.
    fn default() -> (body: Self)
        ensures
            body == CollisionBody::Rect,
    {
        CollisionBody::Rect
    }
}

/// What the collision registry reads of an object: its outline, the
/// categories it belongs to and the categories it collides with.
#[derive(Debug, Clone, Copy, PartialEq, Eq, Structural)]
pub struct CollisionProperties {
    pub body: CollisionBody,
    pub group: CollisionMask,
    pub mask: CollisionMask,
}

impl Default for CollisionProperties {
    /// A rectangle that belongs to no category and collides with none.
    fn default() -> (properties: Self)
        ensures
            properties.body == CollisionBody::Rect,
            properties.group@ == Set::<CollisionGroup>::empty(),
            properties.mask@ == Set::<CollisionGroup>::empty(),
    {
        CollisionProperties {
            body: CollisionBody::default(),
            group: CollisionMask::default(),
            mask: CollisionMask::default(),
        }
    }
}

} // verus!
