//! A set of entities, kept in the game engine's hash set.

use vstd::prelude::*;

verus! {

/// A set of entities. It holds a `bevy::utils::HashSet<u64>`, into which the
/// verifier cannot look: what the set holds is known to it only as
/// [`entity_set_members`], and only through the three functions below,
/// whose contracts are taken on trust.
#[verifier::external_body]
pub struct EntitySet {
    inner: bevy::utils::HashSet<u64>,
}

/// The entities that a set holds.
pub uninterp spec fn entity_set_members(set: EntitySet) -> Set<u64>;

impl View for EntitySet {
    type V = Set<u64>;

    open spec fn view(&self) -> Set<u64> {
        entity_set_members(*self)
    }
}

/// Wraps `HashSet::new` as `bevy::utils` has it from hashbrown. Taken on
/// trust, not proved: the set it makes holds nothing.
#[verifier::external_body]
pub(crate) fn entity_set_new() -> (set: EntitySet)
    ensures
        entity_set_members(set) == Set::<u64>::empty(),
{
    EntitySet { inner: bevy::utils::HashSet::new() }
}

/// Wraps `HashSet::contains`. Taken on trust, not proved: it tells whether
/// the set holds the entity.
#[verifier::external_body]
pub(crate) fn entity_set_contains(set: &EntitySet, entity: u64) -> (held: bool)
    ensures
        held == entity_set_members(*set).contains(entity),
{
    set.inner.contains(&entity)
}

/// Wraps `HashSet::insert`. Taken on trust, not proved: afterwards the set
/// holds the entity besides all that it held before, and the result tells
/// whether the entity was new to the set.
#[verifier::external_body]
pub(crate) fn entity_set_insert(set: &mut EntitySet, entity: u64) -> (fresh: bool)
    ensures
        entity_set_members(*final(set)) == entity_set_members(*old(set)).insert(entity),
        fresh == !entity_set_members(*old(set)).contains(entity),
{
    set.inner.insert(entity)
}

} // verus!
