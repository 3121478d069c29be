//! The score that collisions earn.

use crate::game::entity_set::{entity_set_contains, entity_set_insert, entity_set_new, EntitySet};
use crate::game::occurrence::Occurrence;
use vstd::prelude::*;

verus! {

/// The player's score.
#[derive(Debug, Clone, Copy, PartialEq, Eq, Structural)]
pub struct Scoreboard {
    pub score: usize,
}

/// The points that an object earns the player when it takes part in a
/// collision.
#[derive(Debug, Clone, Copy, PartialEq, Eq, Structural)]
pub struct ScoreOnCollision(pub usize);

/// The objects that have scored so far, and the points they have earned.
pub struct Tally {
    pub scored: Set<u64>,
    pub points: int,
}

/// What one object of an event adds. An object scores once: one that has
/// scored before is passed over, and so is one that earns nothing.
pub open spec fn tally_after_collidee(
    before: Tally,
    entity: u64,
    award: Option<ScoreOnCollision>,
) -> Tally {
    if before.scored.contains(entity) {
        before
    } else {
        match award {
            None => before,
            Some(earned) => Tally {
                scored: before.scored.insert(entity),
                points: before.points + earned.0,
            },
        }
    }
}

/// What one event adds: its first object is looked at, then its second.
pub open spec fn tally_after_occurrence(before: Tally, event: Occurrence<ScoreOnCollision>) -> Tally {
    tally_after_collidee(
        tally_after_collidee(before, event.collidees[0], event.found[0]),
        event.collidees[1],
        event.found[1],
    )
}

/// The tally of the first `k` events, taken one after the other.
pub open spec fn tally_of_first(events: Seq<Occurrence<ScoreOnCollision>>, k: int) -> Tally
    decreases k,
{
    if k <= 0 {
        Tally { scored: Set::empty(), points: 0 }
    } else {
        tally_after_occurrence(tally_of_first(events, k - 1), events[k - 1])
    }
}

/// The points that a sequence of events earns: each object that takes part
/// counts once, with what it earns.
pub open spec fn points_of(events: Seq<Occurrence<ScoreOnCollision>>) -> int {
    tally_of_first(events, events.len() as int).points
}

/// An object scores once: an event that happens a second time, right after
/// the first, adds nothing.
pub proof fn lemma_repeated_event_adds_nothing(before: Tally, event: Occurrence<ScoreOnCollision>)
    ensures
        tally_after_occurrence(tally_after_occurrence(before, event), event)
            == tally_after_occurrence(before, event),
{
}

/// The points never go down from one event to the next.
proof fn lemma_points_grow(events: Seq<Occurrence<ScoreOnCollision>>, k: int, n: int)
    requires
        0 <= k <= n,
    ensures
        0 <= tally_of_first(events, k).points <= tally_of_first(events, n).points,
    decreases n,
{
    if n > k {
        lemma_points_grow(events, k, n - 1);
    } else if k > 0 {
        lemma_points_grow(events, k - 1, k - 1);
    }
}

/// Looks at one object of an event. Returns `None`, and changes nothing,
/// where the points would no longer fit.
fn count_collidee(
    scored: &mut EntitySet,
    score: usize,
    entity: u64,
    award: Option<ScoreOnCollision>,
    Ghost(base): Ghost<int>,
    Ghost(before): Ghost<Tally>,
) -> (counted: Option<usize>)
    requires
        old(scored)@ == before.scored,
        score == base + before.points,
    ensures
        counted is Some <==> base + tally_after_collidee(before, entity, award).points
            <= usize::MAX,
        counted is Some ==> final(scored)@ == tally_after_collidee(before, entity, award).scored
            && counted.unwrap() == base + tally_after_collidee(before, entity, award).points,
{
    if entity_set_contains(scored, entity) {
        return Some(score);
    }
    match award {
        None => Some(score),
        Some(earned) => {
            match score.checked_add(earned.0) {
                None => None,
                Some(sum) => {
                    entity_set_insert(scored, entity);
                    Some(sum)
                },
            }
        },
    }
}

/// Adds to the score what the events of a tick earn. The events are taken
/// one after the other, and of each event the first object before the
/// second; an object scores once per tick, however many collisions it takes
/// part in. Returns whether the new score fits; where it does not, the
/// score is left as it was.
pub fn handle_score_on_collision_events(
    scoreboard: &mut Scoreboard,
    events: &Vec<Occurrence<ScoreOnCollision>>,
) -> (counted: bool)
    ensures
        counted == (old(scoreboard).score + points_of(events@) <= usize::MAX),
        counted ==> final(scoreboard).score == old(scoreboard).score + points_of(events@),
        !counted ==> final(scoreboard).score == old(scoreboard).score,
{
    let mut scored = entity_set_new();
    let mut score: usize = scoreboard.score;
    let ghost base: int = scoreboard.score as int;
    let mut k: usize = 0;
    while k < events.len()
        invariant
            k <= events.len(),
            base == old(scoreboard).score,
            scoreboard.score == old(scoreboard).score,
            scored@ == tally_of_first(events@, k as int).scored,
            score == base + tally_of_first(events@, k as int).points,
        decreases events.len() - k,
    {
        let event = &events[k];
        let ghost start = tally_of_first(events@, k as int);
        let ghost middle = tally_after_collidee(start, event.collidees[0], event.found[0]);
        proof {
            lemma_points_grow(events@, k as int + 1, events@.len() as int);
            lemma_points_grow(events@, k as int, k as int);
        }
        match count_collidee(
            &mut scored,
            score,
            event.collidees[0],
            event.found[0],
            Ghost(base),
            Ghost(start),
        ) {
            None => {
                return false;
            },
            Some(sum) => {
                score = sum;
            },
        }
        match count_collidee(
            &mut scored,
            score,
            event.collidees[1],
            event.found[1],
            Ghost(base),
            Ghost(middle),
        ) {
            None => {
                return false;
            },
            Some(sum) => {
                score = sum;
            },
        }
        k += 1;
    }
    scoreboard.score = score;
    true
}

} // verus!
