//! Objects that are destroyed by a collision.

use crate::game::entity_set::{entity_set_contains, entity_set_insert, entity_set_new, EntitySet};
use crate::game::occurrence::Occurrence;
use vstd::prelude::*;

verus! {

/// What a collision destroys: the object that carries this mark, or the
/// object that it collided with.
#[derive(Debug, Clone, Copy, PartialEq, Eq, Structural)]
pub enum DestroyOnCollision {
    This,
    Other,
}

/// The entities destroyed so far, as a set and in the order in which they
/// were named.
pub struct Destroyed {
    pub removed: Set<u64>,
    pub despawned: Seq<u64>,
}

/// What one object of an event adds. An object that was destroyed before is
/// passed over, and so is one without a mark; a mark names the object
/// itself or the `other` one.
pub open spec fn after_collidee(
    before: Destroyed,
    entity: u64,
    other: u64,
    mark: Option<DestroyOnCollision>,
) -> Destroyed {
    if before.removed.contains(entity) {
        before
    } else {
        match mark {
            None => before,
            Some(DestroyOnCollision::This) => Destroyed {
                removed: before.removed.insert(entity),
                despawned: before.despawned.push(entity),
            },
            Some(DestroyOnCollision::Other) => Destroyed {
                removed: before.removed.insert(other),
                despawned: before.despawned.push(other),
            },
        }
    }
}

/// What one event adds: its first object is looked at, then its second.
pub open spec fn after_occurrence(
    before: Destroyed,
    event: Occurrence<DestroyOnCollision>,
) -> Destroyed {
    after_collidee(
        after_collidee(before, event.collidees[0], event.collidees[1], event.found[0]),
        event.collidees[1],
        event.collidees[0],
        event.found[1],
    )
}

/// What a sequence of events destroys, taken one after the other.
pub open spec fn after_occurrences(events: Seq<Occurrence<DestroyOnCollision>>) -> Destroyed
    decreases events.len(),
{
    if events.len() == 0 {
        Destroyed { removed: Set::empty(), despawned: Seq::empty() }
    } else {
        after_occurrence(after_occurrences(events.drop_last()), events.last())
    }
}

/// Looks at one object of an event.
fn visit_collidee(
    removed: &mut EntitySet,
    despawned: &mut Vec<u64>,
    entity: u64,
    other: u64,
    mark: Option<DestroyOnCollision>,
)
    ensures
        (Destroyed { removed: final(removed)@, despawned: final(despawned)@ }) == after_collidee(
            Destroyed { removed: old(removed)@, despawned: old(despawned)@ },
            entity,
            other,
            mark,
        ),
{
    if entity_set_contains(removed, entity) {
        return ;
    }
    match mark {
        None => {},
        Some(DestroyOnCollision::This) => {
            despawned.push(entity);
            entity_set_insert(removed, entity);
        },
        Some(DestroyOnCollision::Other) => {
            despawned.push(other);
            entity_set_insert(removed, other);
        },
    }
}

/// Names the entities that the events of a tick destroy, in order. The
/// events are taken one after the other, and of each event the first object
/// before the second. An object that was named before is passed over; any
/// other names itself where its mark is `This`, and the object it collided
/// with where its mark is `Other`.
pub fn handle_destroy_collision_events(events: &Vec<Occurrence<DestroyOnCollision>>) -> (despawned:
    Vec<u64>)
    ensures
        despawned@ == after_occurrences(events@).despawned,
{
    let mut removed = entity_set_new();
    let mut despawned: Vec<u64> = Vec::new();
    let mut k: usize = 0;
    while k < events.len()
        invariant
            k <= events.len(),
            (Destroyed { removed: removed@, despawned: despawned@ }) == after_occurrences(
                events@.take(k as int),
            ),
        decreases events.len() - k,
    {
        let event = &events[k];
        proof {
            events@.lemma_take_succ_push(k as int);
            assert(events@.take(k as int).push(events@[k as int]).drop_last() =~= events@.take(
                k as int,
            ));
        }
        visit_collidee(
            &mut removed,
            &mut despawned,
            event.collidees[0],
            event.collidees[1],
            event.found[0],
        );
        visit_collidee(
            &mut removed,
            &mut despawned,
            event.collidees[1],
            event.collidees[0],
            event.found[1],
        );
        k += 1;
    }
    proof {
        events@.lemma_take_len();
    }
    despawned
}

/// Looking at one more object forgets nothing, and keeps the set of removed
/// entities equal to the set of entities named so far.
proof fn lemma_after_collidee(
    before: Destroyed,
    entity: u64,
    other: u64,
    mark: Option<DestroyOnCollision>,
)
    requires
        before.removed == before.despawned.to_set(),
    ensures
        after_collidee(before, entity, other, mark).removed == after_collidee(
            before,
            entity,
            other,
            mark,
        ).despawned.to_set(),
        before.removed.subset_of(after_collidee(before, entity, other, mark).removed),
        mark == Some(DestroyOnCollision::This) ==> after_collidee(
            before,
            entity,
            other,
            mark,
        ).removed.contains(entity),
{
    before.despawned.lemma_push_to_set_commute(entity);
    before.despawned.lemma_push_to_set_commute(other);
}

/// The entities named by the events are exactly those that count as removed.
pub proof fn lemma_removed_are_the_despawned(events: Seq<Occurrence<DestroyOnCollision>>)
    ensures
        after_occurrences(events).removed == after_occurrences(events).despawned.to_set(),
    decreases events.len(),
{
    if events.len() == 0 {
        assert(Seq::<u64>::empty().to_set() =~= Set::<u64>::empty());
    } else {
        lemma_removed_are_the_despawned(events.drop_last());
        let before = after_occurrences(events.drop_last());
        let event = events.last();
        lemma_after_collidee(before, event.collidees[0], event.collidees[1], event.found[0]);
        lemma_after_collidee(
            after_collidee(before, event.collidees[0], event.collidees[1], event.found[0]),
            event.collidees[1],
            event.collidees[0],
            event.found[1],
        );
    }
}

/// What the first events have removed stays removed after the rest.
proof fn lemma_removed_grows(events: Seq<Occurrence<DestroyOnCollision>>, k: int)
    requires
        0 <= k <= events.len(),
    ensures
        after_occurrences(events.take(k)).removed.subset_of(after_occurrences(events).removed),
    decreases events.len() - k,
{
    if k == events.len() {
        events.lemma_take_len();
    } else {
        lemma_removed_grows(events, k + 1);
        events.lemma_take_succ_push(k);
        assert(events.take(k).push(events[k]).drop_last() =~= events.take(k));
        let before = after_occurrences(events.take(k));
        let event = &events[k];
        lemma_removed_are_the_despawned(events.take(k));
        lemma_after_collidee(before, event.collidees[0], event.collidees[1], event.found[0]);
        lemma_after_collidee(
            after_collidee(before, event.collidees[0], event.collidees[1], event.found[0]),
            event.collidees[1],
            event.collidees[0],
            event.found[1],
        );
    }
}

/// An object marked `This` that takes part in a collision is destroyed: its
/// entity is among those named.
pub proof fn lemma_marked_object_is_destroyed(
    events: Seq<Occurrence<DestroyOnCollision>>,
    k: int,
    side: int,
)
    requires
        0 <= k < events.len(),
        0 <= side < 2,
        events[k].found[side] == Some(DestroyOnCollision::This),
    ensures
        after_occurrences(events).despawned.contains(events[k].collidees[side]),
{
    events.lemma_take_succ_push(k);
    assert(events.take(k).push(events[k]).drop_last() =~= events.take(k));
    let before = after_occurrences(events.take(k));
    let event = &events[k];
    lemma_removed_are_the_despawned(events.take(k));
    lemma_after_collidee(before, event.collidees[0], event.collidees[1], event.found[0]);
    lemma_after_collidee(
        after_collidee(before, event.collidees[0], event.collidees[1], event.found[0]),
        event.collidees[1],
        event.collidees[0],
        event.found[1],
    );
    assert(after_occurrences(events.take(k + 1)).removed.contains(event.collidees[side]));
    lemma_removed_grows(events, k + 1);
    lemma_removed_are_the_despawned(events);
}

} // verus!
